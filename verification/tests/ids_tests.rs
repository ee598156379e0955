use omthub::ids::{IdDecodeError, UlidWrapper};

#[test]
fn wrapped_ulid_string_parses_to_its_value() {
    let text = "01D39ZY06FGSCTVN4T2V9PKHFZ";
    let wrapped = UlidWrapper::new(text.to_string());
    let value = wrapped.parse().expect("a well-formed ULID string");
    assert_eq!(value, ulid::Ulid::from_string(text).unwrap().0);
}

#[test]
fn freshly_generated_ulid_round_trips_through_its_string() {
    let generated = ulid::Ulid::new();
    let wrapped = UlidWrapper::new(generated.to_string());
    assert_eq!(wrapped.parse(), Ok(generated.0));
}

#[test]
fn wrong_length_is_rejected() {
    let wrapped = UlidWrapper::new("TOOSHORT".to_string());
    assert_eq!(wrapped.parse(), Err(IdDecodeError::InvalidLength));
}

#[test]
fn character_outside_alphabet_is_rejected() {
    let wrapped = UlidWrapper::new("!1D39ZY06FGSCTVN4T2V9PKHFZ".to_string());
    assert_eq!(wrapped.parse(), Err(IdDecodeError::InvalidChar));
}
