use sw_core::frontend::{parse_image_name, parse_product_name, parse_subsystem_name};

#[test]
fn image_name_argument_accepts_two_segments() {
    assert_eq!(parse_image_name("eoe.sw"), Ok("eoe.sw".to_string()));
}

#[test]
fn image_name_argument_rejects_other_shapes() {
    assert!(parse_image_name("eoe").is_err());
    assert!(parse_image_name("eoe.sw.unix").is_err());
    assert!(parse_image_name("eoe..sw").is_err());
    assert!(parse_image_name("").is_err());
}

#[test]
fn product_and_subsystem_arguments_round_trip() {
    assert_eq!(parse_product_name("eoe"), Ok("eoe".to_string()));
    assert_eq!(parse_subsystem_name("eoe.sw.unix"), Ok("eoe.sw.unix".to_string()));
    assert!(parse_subsystem_name("eoe.sw").is_err());
}
