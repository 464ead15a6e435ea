use push_delivery::sort_text::SortedAddressBuilder;

#[test]
fn empty_builder_builds_exclamation_mark() {
    let builder = SortedAddressBuilder::new();
    assert_eq!(builder.build(), "!");
}

#[test]
fn parts_are_lowered_and_joined_by_one_space() {
    let mut builder = SortedAddressBuilder::new();
    assert!(builder.push("John  DOE"));
    assert!(builder.push("Jdoe@Example.COM"));
    assert_eq!(builder.build(), "john doe jdoe@example.com");
}
