use sentinel::gas::GasBudget;
use sentinel::gas::OperationType;

#[test]
fn test_operation_costs() {
    assert_eq!(OperationType::StateRead.cost(), 1);
    assert_eq!(OperationType::StateWrite.cost(), 5);
    assert_eq!(OperationType::ToolCall.cost(), 10);
    assert_eq!(OperationType::LlmInference.cost(), 100);
    assert_eq!(OperationType::NetworkIo.cost(), 20);
    assert_eq!(OperationType::Custom(42).cost(), 42);
}

#[test]
fn test_budget_creation() {
    let budget = GasBudget::new(1000);
    assert_eq!(budget.initial(), 1000);
    assert_eq!(budget.remaining(), 1000);
    assert_eq!(budget.consumed(), 0);
    assert_eq!(budget.operation_count(), 0);
}

#[test]
fn test_successful_consumption() {
    let mut budget = GasBudget::new(100);

    let remaining = budget.consume(OperationType::StateRead).unwrap();
    assert_eq!(remaining, 99);
    assert_eq!(budget.consumed(), 1);
    assert_eq!(budget.operation_count(), 1);

    let remaining = budget.consume(OperationType::ToolCall).unwrap();
    assert_eq!(remaining, 89);
    assert_eq!(budget.consumed(), 11);
    assert_eq!(budget.operation_count(), 2);
}

#[test]
fn test_gas_exhaustion() {
    let mut budget = GasBudget::new(50);

    let result = budget.consume(OperationType::LlmInference);
    assert!(result.is_err());

    assert_eq!(budget.remaining(), 50);
    assert_eq!(budget.consumed(), 0);
    assert_eq!(budget.operation_count(), 0);
}

#[test]
fn gas_test_can_afford() {
    let budget = GasBudget::new(15);

    assert!(budget.can_afford(OperationType::StateRead));
    assert!(budget.can_afford(OperationType::ToolCall));
    assert!(!budget.can_afford(OperationType::LlmInference));
}

#[test]
fn gas_test_reset() {
    let mut budget = GasBudget::new(100);
    budget.consume(OperationType::StateWrite).unwrap();
    budget.consume(OperationType::ToolCall).unwrap();

    assert_eq!(budget.remaining(), 85);
    assert_eq!(budget.consumed(), 15);
    assert_eq!(budget.operation_count(), 2);

    budget.reset();

    assert_eq!(budget.remaining(), 100);
    assert_eq!(budget.consumed(), 0);
    assert_eq!(budget.operation_count(), 0);
}

#[test]
fn test_is_exhausted() {
    let mut budget = GasBudget::new(5);
    assert!(!budget.is_exhausted());

    budget.consume(OperationType::StateWrite).unwrap();
    assert!(budget.is_exhausted());
}

#[test]
fn test_consume_raw() {
    let mut budget = GasBudget::new(100);

    let remaining = budget.consume_raw(25).unwrap();
    assert_eq!(remaining, 75);

    let result = budget.consume_raw(100);
    assert!(result.is_err());
    assert_eq!(budget.remaining(), 75);
}

#[test]
fn test_default_budget() {
    let budget = GasBudget::default();
    assert_eq!(budget.initial(), 10_000);
}

#[test]
fn test_custom_operation() {
    let mut budget = GasBudget::new(100);
    let custom = OperationType::Custom(33);

    assert_eq!(custom.cost(), 33);
    let remaining = budget.consume(custom).unwrap();
    assert_eq!(remaining, 67);
}

#[test]
fn test_security_no_negative_remaining() {
    let mut budget = GasBudget::new(5);
    budget.consume(OperationType::StateRead).unwrap();
    budget.consume(OperationType::StateRead).unwrap();
    budget.consume(OperationType::StateRead).unwrap();
    budget.consume(OperationType::StateRead).unwrap();
    budget.consume(OperationType::StateRead).unwrap();

    assert!(budget.is_exhausted());
    assert_eq!(budget.remaining(), 0);

    assert!(budget.consume(OperationType::StateRead).is_err());
    assert_eq!(budget.remaining(), 0);
}

#[test]
fn test_security_budget_immutability() {
    let budget = GasBudget::new(1000);
    assert_eq!(budget.initial(), 1000);

    let mut budget = budget;
    budget.consume(OperationType::LlmInference).unwrap();
    assert_eq!(budget.initial(), 1000);
}

#[test]
fn test_security_exhaustion_under_load() {
    let mut budget = GasBudget::new(1000);

    for _ in 0..100 {
        let _ = budget.consume(OperationType::ToolCall);
    }

    assert!(budget.is_exhausted());
    assert_eq!(budget.consumed(), 1000);
    assert_eq!(budget.operation_count(), 100);
}

// gas conservation observed on a concrete run: what remains and what was
// spent always add up to the initial allocation
#[test]
fn test_gas_conservation_sequence() {
    let mut budget = GasBudget::new(137);
    let _ = budget.consume(OperationType::ToolCall);
    let _ = budget.consume(OperationType::StateWrite);
    let _ = budget.consume(OperationType::LlmInference);
    let _ = budget.consume(OperationType::NetworkIo);
    assert_eq!(budget.remaining() + budget.consumed(), 137);
    let _ = budget.consume(OperationType::Custom(1_000_000));
    assert_eq!(budget.remaining() + budget.consumed(), 137);
}
