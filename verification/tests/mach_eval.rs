use sw_core::mach::eval::{matches_any, HardwareProfile};
use sw_core::mach::HardwareExpr;

fn indigo2_extreme() -> HardwareProfile {
    HardwareProfile::builder()
        .set("CPUBOARD", "IP22")
        .set("CPUARCH", "R4400")
        .set("GFXBOARD", "EXPRESS")
        .set("MODE", "32bit")
        .build()
}

#[test]
fn legacy_list_evaluation() {
    let profile = indigo2_extreme();
    let matching = HardwareExpr::parse("CPUBOARD=IP19 CPUBOARD=IP22").unwrap();
    let mismatching = HardwareExpr::parse("CPUBOARD=IP19 CPUBOARD=IP21").unwrap();
    assert!(matching.evaluate(&profile));
    assert!(!mismatching.evaluate(&profile));
}

#[test]
fn boolean_evaluation() {
    let profile = indigo2_extreme();
    let expr = HardwareExpr::parse("CPUBOARD=IP22 && (GFXBOARD=EXPRESS || GFXBOARD=NEWPRESS)").unwrap();
    assert!(expr.evaluate(&profile));
    let expr = HardwareExpr::parse("MODE=64bit && CPUBOARD!=IP26").unwrap();
    assert!(!expr.evaluate(&profile));
    let expr = HardwareExpr::parse("GFXBOARD!=SERVER").unwrap();
    assert!(expr.evaluate(&profile));
}

#[test]
fn missing_attribute_is_false() {
    let profile = HardwareProfile::builder().build();
    let expr = HardwareExpr::parse("CPUBOARD=IP22").unwrap();
    assert!(!expr.evaluate(&profile));
}

#[test]
fn matches_any_or_semantics() {
    let profile = indigo2_extreme();
    let exprs = vec![HardwareExpr::parse("CPUBOARD=IP19").unwrap(), HardwareExpr::parse("CPUBOARD=IP22").unwrap()];
    assert!(matches_any(&exprs, &profile));
    assert!(matches_any(&[], &profile));
}

#[test]
fn multi_valued_attributes() {
    let profile = HardwareProfile::builder().add("CPUARCH", "MIPS2").add("CPUARCH", "R4000").set("CPUBOARD", "IP22").build();
    assert!(HardwareExpr::parse("CPUARCH=MIPS2").unwrap().evaluate(&profile));
    assert!(HardwareExpr::parse("CPUARCH=R4000").unwrap().evaluate(&profile));
    assert!(!HardwareExpr::parse("CPUARCH=MIPS1").unwrap().evaluate(&profile));
    assert!(HardwareExpr::parse("CPUARCH!=MIPS1").unwrap().evaluate(&profile));
    assert!(!HardwareExpr::parse("CPUARCH!=MIPS2").unwrap().evaluate(&profile));
}

#[test]
fn set_replaces_earlier_values() {
    let profile = HardwareProfile::builder().add("CPUBOARD", "IP19").set("CPUBOARD", "IP22").build();
    assert!(!HardwareExpr::parse("CPUBOARD=IP19").unwrap().evaluate(&profile));
    assert!(HardwareExpr::parse("CPUBOARD=IP22").unwrap().evaluate(&profile));
}
