use push_delivery::header::{
    address_sort_text, subject_sort_text, thread_sort_text, Addr, AddressElement, Group,
    HeaderValue,
};
use push_delivery::sort_text::{SortedAddressBuilder, MAX_SORT_FIELD_LENGTH};
use push_delivery::trim_text::TrimTextValue;

fn addr(name: Option<&str>, address: Option<&str>) -> Addr {
    Addr { name: name.map(|s| s.to_string()), address: address.map(|s| s.to_string()) }
}

#[test]
fn default_builder_is_empty() {
    let builder = SortedAddressBuilder::default();
    assert!(builder.last_is_space);
    assert_eq!(builder.buf, "");
}

#[test]
fn empty_part_changes_nothing() {
    let mut builder = SortedAddressBuilder::new();
    assert!(builder.push(""));
    assert_eq!(builder.buf, "");
    assert!(builder.push("a"));
    assert!(builder.push(""));
    assert_eq!(builder.buf, "a");
}

#[test]
fn whitespace_is_collapsed_and_dropped_at_the_start() {
    let mut builder = SortedAddressBuilder::new();
    assert!(builder.push("  \t Mary \u{a0}\n Ann  "));
    assert_eq!(builder.buf, "mary ann ");
    assert!(builder.push(" X"));
    assert_eq!(builder.build(), "mary ann  x");
    let mut other = SortedAddressBuilder::new();
    assert!(other.push("Mary\u{a0} \tAnn"));
    assert_eq!(other.build(), "mary\u{a0}ann");
}

#[test]
fn lower_case_may_take_more_than_one_character() {
    let mut builder = SortedAddressBuilder::new();
    assert!(builder.push("\u{130}STANBUL \u{c4}"));
    assert_eq!(builder.build(), "i\u{307}stanbul \u{e4}");
}

#[test]
fn text_is_cut_when_full() {
    let mut builder = SortedAddressBuilder::new();
    let long = "A".repeat(300);
    assert!(!builder.push(&long));
    assert_eq!(builder.buf.len(), MAX_SORT_FIELD_LENGTH);
    assert!(!builder.push("b"));
    assert_eq!(builder.buf.len(), MAX_SORT_FIELD_LENGTH + 1);
    assert!(builder.buf.ends_with("a "));
}

#[test]
fn a_part_that_just_fits_is_taken() {
    let mut builder = SortedAddressBuilder::new();
    assert!(builder.push(&"x".repeat(MAX_SORT_FIELD_LENGTH)));
    assert_eq!(builder.buf.len(), MAX_SORT_FIELD_LENGTH);
}

#[test]
fn the_length_is_counted_in_bytes() {
    let mut builder = SortedAddressBuilder::new();
    assert!(builder.push(&"x".repeat(MAX_SORT_FIELD_LENGTH - 2)));
    assert!(builder.push("\u{e9}"));
    assert_eq!(builder.buf.len(), MAX_SORT_FIELD_LENGTH + 1);
    assert_eq!(builder.buf.chars().count(), MAX_SORT_FIELD_LENGTH);
    assert!(!builder.push("z"));
    assert_eq!(builder.buf.len(), MAX_SORT_FIELD_LENGTH + 2);

    let mut narrow = SortedAddressBuilder::new();
    assert!(narrow.push(&"x".repeat(MAX_SORT_FIELD_LENGTH - 1)));
    assert!(!narrow.push("\u{e9}"));
    assert_eq!(narrow.buf.len(), MAX_SORT_FIELD_LENGTH);
}

#[test]
fn trim_str_shorter_than_the_length_is_kept() {
    assert_eq!("hello".trim_text(6), "hello");
    assert_eq!("".trim_text(1), "");
    assert_eq!("".trim_text(0), "");
}

#[test]
fn trim_str_drops_the_character_at_the_length() {
    assert_eq!("hello".trim_text(5), "hell");
    assert_eq!("hello world".trim_text(5), "hello");
    assert_eq!("hello".trim_text(0), "");
    assert_eq!("h\u{e9}llo".trim_text(2), "h");
    assert_eq!("h\u{e9}llo".trim_text(3), "h\u{e9}");
    assert_eq!("\u{1f600}\u{1f600}".trim_text(5), "\u{1f600}");
    assert_eq!("\u{1f600}\u{1f600}".trim_text(3), "");
}

#[test]
fn trim_string_keeps_the_character_at_the_length() {
    assert_eq!("hello".to_string().trim_text(6), "hello");
    assert_eq!("hello".to_string().trim_text(5), "hello");
    assert_eq!("hello world".to_string().trim_text(5), "hello ");
    assert_eq!("hello".to_string().trim_text(0), "h");
    assert_eq!("".to_string().trim_text(0), "");
    assert_eq!("h\u{e9}llo".to_string().trim_text(2), "h\u{e9}");
    assert_eq!("h\u{e9}llo".to_string().trim_text(3), "h\u{e9}l");
    assert_eq!("\u{1f600}\u{1f600}".to_string().trim_text(3), "\u{1f600}");
    assert_eq!("\u{1f600}\u{1f600}".to_string().trim_text(4), "\u{1f600}\u{1f600}");
}

#[test]
fn trim_vec_trims_each_value() {
    let values = vec!["abcdef".to_string(), "ab".to_string(), "abc".to_string()];
    assert_eq!(values.trim_text(3), vec!["abcd".to_string(), "ab".to_string(), "abc".to_string()]);
    let slices = vec!["abcdef", "ab", "abc"];
    assert_eq!(slices.trim_text(3), vec!["abc", "ab", "ab"]);
}

#[test]
fn trim_header_values() {
    let list = HeaderValue::AddressList(vec![addr(Some("Abcdef"), Some("ab@c.d")), addr(None, None)]);
    match list.trim_text(3) {
        HeaderValue::AddressList(addrs) => {
            assert_eq!(addrs.len(), 2);
            assert_eq!(addrs[0].name.as_deref(), Some("Abcd"));
            assert_eq!(addrs[0].address.as_deref(), Some("ab@c"));
            assert!(addrs[1].name.is_none());
            assert!(addrs[1].address.is_none());
        }
        other => panic!("expected an address list, got {:?}", other),
    }
    let groups = HeaderValue::AddressGroups(vec![Group {
        name: Some("Friends".to_string()),
        addresses: vec![addr(Some("Jo"), Some("jo@example.org"))],
    }]);
    match groups.trim_text(4) {
        HeaderValue::AddressGroups(groups) => {
            assert_eq!(groups[0].name.as_deref(), Some("Frien"));
            assert_eq!(groups[0].addresses[0].name.as_deref(), Some("Jo"));
            assert_eq!(groups[0].addresses[0].address.as_deref(), Some("jo@ex"));
        }
        other => panic!("expected groups, got {:?}", other),
    }
    match HeaderValue::Text("subject".to_string()).trim_text(2) {
        HeaderValue::Text(text) => assert_eq!(text, "sub"),
        other => panic!("expected text, got {:?}", other),
    }
    match HeaderValue::TextList(vec!["one".to_string(), "three".to_string()]).trim_text(4) {
        HeaderValue::TextList(texts) => {
            assert_eq!(texts, vec!["one".to_string(), "three".to_string()])
        }
        other => panic!("expected texts, got {:?}", other),
    }
    assert!(matches!(HeaderValue::Other.trim_text(1), HeaderValue::Other));
}

#[test]
fn address_elements_in_order() {
    let list = HeaderValue::AddressList(vec![
        addr(Some("A"), Some("a@x")),
        addr(None, Some("b@x")),
        addr(Some("C"), None),
    ]);
    assert_eq!(
        list.address_elements(),
        vec![
            (AddressElement::Name, "A".to_string()),
            (AddressElement::Address, "a@x".to_string()),
            (AddressElement::Address, "b@x".to_string()),
            (AddressElement::Name, "C".to_string()),
        ]
    );
    let groups = HeaderValue::AddressGroups(vec![
        Group { name: Some("G".to_string()), addresses: vec![addr(Some("A"), Some("a@x"))] },
        Group { name: None, addresses: vec![addr(None, Some("b@x"))] },
    ]);
    assert_eq!(
        groups.address_elements(),
        vec![
            (AddressElement::GroupName, "G".to_string()),
            (AddressElement::Name, "A".to_string()),
            (AddressElement::Address, "a@x".to_string()),
            (AddressElement::Address, "b@x".to_string()),
        ]
    );
    assert!(HeaderValue::Text("t".to_string()).address_elements().is_empty());
    assert!(HeaderValue::Other.address_elements().is_empty());
}

#[test]
fn header_texts_in_order() {
    assert_eq!(HeaderValue::Text("a".to_string()).texts(), vec!["a".to_string()]);
    assert_eq!(
        HeaderValue::TextList(vec!["a".to_string(), "b".to_string()]).texts(),
        vec!["a".to_string(), "b".to_string()]
    );
    assert!(HeaderValue::Other.texts().is_empty());
    assert!(HeaderValue::AddressList(Vec::new()).texts().is_empty());
}

#[test]
fn address_sort_text_ends_with_the_first_address() {
    let list = HeaderValue::AddressList(vec![
        addr(Some("John Doe"), Some("John@Example.org")),
        addr(Some("Jane"), Some("jane@example.org")),
    ]);
    assert_eq!(address_sort_text(&list), "john doe john@example.org");
    let names_only =
        HeaderValue::AddressList(vec![addr(Some("B"), None), addr(Some("A"), Some("z@z"))]);
    assert_eq!(address_sort_text(&names_only), "b a z@z");
    let groups = HeaderValue::AddressGroups(vec![Group {
        name: Some("Team".to_string()),
        addresses: vec![addr(None, Some("X@Y"))],
    }]);
    assert_eq!(address_sort_text(&groups), "x@y");
    assert_eq!(address_sort_text(&HeaderValue::AddressList(Vec::new())), "!");
    assert_eq!(address_sort_text(&HeaderValue::Other), "!");
}

#[test]
fn address_sort_text_stops_at_a_name_that_does_not_fit() {
    let list = HeaderValue::AddressList(vec![addr(Some(&"N".repeat(400)), Some("a@b"))]);
    assert_eq!(address_sort_text(&list), "n".repeat(MAX_SORT_FIELD_LENGTH));
}

#[test]
fn subject_is_sorted_under_its_thread_name() {
    assert_eq!(subject_sort_text("Re: Fwd: Hello world"), "Hello world");
    assert_eq!(subject_sort_text("Hello world"), "Hello world");
    assert_eq!(subject_sort_text("re:"), "!");
    assert_eq!(subject_sort_text(""), "!");
}

#[test]
fn thread_name_is_cut_to_the_sort_length() {
    assert_eq!(thread_sort_text(""), "!");
    assert_eq!(thread_sort_text("abc"), "abc");
    let long = "s".repeat(400);
    assert_eq!(thread_sort_text(&long), "s".repeat(MAX_SORT_FIELD_LENGTH));
    let exact = "s".repeat(MAX_SORT_FIELD_LENGTH);
    assert_eq!(thread_sort_text(&exact), "s".repeat(MAX_SORT_FIELD_LENGTH - 1));
}
