use spark_api::k8s::quantity::{cpu_millicores, memory_bytes, split_suffix};

#[test]
fn cpu_units_convert_to_millicores() {
    assert_eq!(cpu_millicores("2"), Some(2000));
    assert_eq!(cpu_millicores("500m"), Some(500));
    assert_eq!(cpu_millicores("1500000u"), Some(1500));
    // The unit metrics-server actually uses most of the time.
    assert_eq!(cpu_millicores("12345678n"), Some(12));
    assert_eq!(cpu_millicores("0"), Some(0));
}

#[test]
fn memory_units_convert_to_bytes() {
    assert_eq!(memory_bytes("1024"), Some(1024));
    assert_eq!(memory_bytes("1Ki"), Some(1024));
    assert_eq!(memory_bytes("2Mi"), Some(2 * 1024 * 1024));
    assert_eq!(memory_bytes("1Gi"), Some(1024 * 1024 * 1024));
    // Binary and decimal suffixes differ and must not be conflated.
    assert_ne!(memory_bytes("1M"), memory_bytes("1Mi"));
    assert_eq!(memory_bytes("1M"), Some(1_000_000));
}

#[test]
fn unknown_or_malformed_values_are_rejected_rather_than_guessed() {
    assert_eq!(cpu_millicores("abc"), None);
    assert_eq!(cpu_millicores("10x"), None);
    assert_eq!(memory_bytes(""), None);
    assert_eq!(memory_bytes("12Zi"), None);
}

#[test]
fn the_suffix_starts_after_the_number() {
    assert_eq!(split_suffix("500m"), ("500", "m"));
    assert_eq!(split_suffix("1.5Gi"), ("1.5", "Gi"));
    assert_eq!(split_suffix("-2"), ("-2", ""));
    assert_eq!(split_suffix("Ki"), ("", "Ki"));
}

#[test]
fn fractions_round_to_the_nearest_unit() {
    assert_eq!(cpu_millicores("0.25"), Some(250));
    assert_eq!(cpu_millicores("1.6m"), Some(2));
    assert_eq!(cpu_millicores("2600000n"), Some(3));
    assert_eq!(cpu_millicores(" 750m "), Some(750));
    assert_eq!(memory_bytes("1.5Ki"), Some(1536));
    assert_eq!(memory_bytes("1k"), Some(1000));
    assert_eq!(memory_bytes("1Ti"), Some(1024 * 1024 * 1024 * 1024));
}

#[test]
fn exabyte_suffixes_are_not_known() {
    assert_eq!(memory_bytes("1E"), None);
    assert_eq!(memory_bytes("1Pi"), None);
}

#[test]
fn values_beyond_an_i64_saturate() {
    assert_eq!(memory_bytes("100000000000T"), Some(i64::MAX));
    assert_eq!(memory_bytes("-100000000000T"), Some(i64::MIN));
}
