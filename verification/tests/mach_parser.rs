use sw_core::mach::{CompareOp, HardwareExpr, HardwareSyntax, MachAttribute, MachExpr};

#[test]
fn legacy_single_token() {
    let expr = HardwareExpr::parse("CPUBOARD=IP19").unwrap();
    assert_eq!(expr.syntax, HardwareSyntax::LegacyList);
    assert_eq!(
        expr.expr,
        MachExpr::Compare { attribute: MachAttribute::CpuBoard, op: CompareOp::Eq, value: "IP19".into() }
    );
}

#[test]
fn legacy_same_attribute_is_or() {
    let expr = HardwareExpr::parse("CPUBOARD=IP19 CPUBOARD=IP21 CPUBOARD=IP25").unwrap();
    let MachExpr::Or(values) = expr.expr else {
        panic!("expected Or, got {:?}", expr.expr);
    };
    assert_eq!(values.len(), 3);
}

#[test]
fn legacy_different_attributes_are_and() {
    let expr = HardwareExpr::parse("CPUBOARD=IP12 GFXBOARD=LIGHT GFXBOARD=EXPRESS").unwrap();
    let MachExpr::And(groups) = expr.expr else {
        panic!("expected And, got {:?}", expr.expr);
    };
    assert_eq!(groups.len(), 2);
    assert!(matches!(groups[0], MachExpr::Compare { .. }));
    assert!(matches!(groups[1], MachExpr::Or(_)));
}

#[test]
fn boolean_expression() {
    let expr = HardwareExpr::parse("CPUBOARD=IP22 && (GFXBOARD=EXPRESS || GFXBOARD=NEWPRESS)").unwrap();
    assert_eq!(expr.syntax, HardwareSyntax::Boolean);
    let MachExpr::And(operands) = expr.expr else {
        panic!("expected And, got {:?}", expr.expr);
    };
    assert_eq!(operands.len(), 2);
    assert!(matches!(operands[1], MachExpr::Or(_)));
}

#[test]
fn boolean_negation_and_inequality() {
    let expr = HardwareExpr::parse("MODE=64bit && CPUBOARD!=IP26").unwrap();
    assert!(matches!(expr.expr, MachExpr::And(_)));
    let expr = HardwareExpr::parse("!(CPUBOARD=IP26)").unwrap();
    assert!(matches!(expr.expr, MachExpr::Not(_)));
}

#[test]
fn rejects_malformed_input() {
    assert!(HardwareExpr::parse("").is_err());
    assert!(HardwareExpr::parse("=IP22").is_err());
    assert!(HardwareExpr::parse("CPUBOARD=IP22 &&").is_err());
    assert!(HardwareExpr::parse("(CPUBOARD=IP22").is_err());
}

#[test]
fn bare_value_is_cpuboard_shorthand() {
    let expr = HardwareExpr::parse("IP22").unwrap();
    assert_eq!(expr.syntax, HardwareSyntax::LegacyList);
    assert_eq!(
        expr.expr,
        MachExpr::Compare { attribute: MachAttribute::CpuBoard, op: CompareOp::Eq, value: "IP22".into() }
    );

    let expr = HardwareExpr::parse("IP22 IP26").unwrap();
    let MachExpr::Or(values) = expr.expr else {
        panic!("expected Or, got {:?}", expr.expr);
    };
    assert_eq!(values.len(), 2);
    assert!(values.iter().all(|value| matches!(value, MachExpr::Compare { attribute: MachAttribute::CpuBoard, .. })));
}

#[test]
fn boolean_bare_value_is_cpuboard_shorthand() {
    let expr = HardwareExpr::parse("IP22 || IP26").unwrap();
    assert_eq!(expr.syntax, HardwareSyntax::Boolean);
    let MachExpr::Or(values) = expr.expr else {
        panic!("expected Or, got {:?}", expr.expr);
    };
    assert_eq!(
        values,
        vec![
            MachExpr::Compare { attribute: MachAttribute::CpuBoard, op: CompareOp::Eq, value: "IP22".into() },
            MachExpr::Compare { attribute: MachAttribute::CpuBoard, op: CompareOp::Eq, value: "IP26".into() },
        ]
    );

    let expr = HardwareExpr::parse("IP22 && GFXBOARD=EXPRESS").unwrap();
    let MachExpr::And(operands) = expr.expr else {
        panic!("expected And, got {:?}", expr.expr);
    };
    assert_eq!(
        operands[0],
        MachExpr::Compare { attribute: MachAttribute::CpuBoard, op: CompareOp::Eq, value: "IP22".into() }
    );
    assert_eq!(
        operands[1],
        MachExpr::Compare { attribute: MachAttribute::GfxBoard, op: CompareOp::Eq, value: "EXPRESS".into() }
    );
}
