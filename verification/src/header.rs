//! The values of message headers that indexing reads: addresses and text.

use vstd::prelude::*;
use vstd::string::*;
use crate::sort_text::{SortTextView, SortedAddressBuilder};
use crate::trim_text::TrimTextValue;

verus! {

/// One address of a header: a display name, a mail address, or both.
#[derive(Debug)]
pub struct Addr {
    pub name: Option<String>,
    pub address: Option<String>,
}

/// A named group of addresses.
#[derive(Debug)]
pub struct Group {
    pub name: Option<String>,
    pub addresses: Vec<Addr>,
}

/// The value of a header, as far as indexing looks into it.
#[derive(Debug)]
pub enum HeaderValue {
    /// A list of addresses.
    AddressList(Vec<Addr>),
    /// A list of groups of addresses.
    AddressGroups(Vec<Group>),
    /// A text.
    Text(String),
    /// Several texts.
    TextList(Vec<String>),
    /// Any other value: a date, a content type, nothing.
    Other,
}

/// What a text of an address header is.
#[derive(Clone, Copy, Debug, PartialEq, Eq, Structural)]
pub enum AddressElement {
    Name,
    Address,
    GroupName,
}

/// The view of a text that may be absent.
pub open spec fn text_view(text: Option<String>) -> Option<Seq<char>> {
    match text {
        Some(t) => Some(t@),
        None => None,
    }
}

/// Whether `trimmed` is `text` cut to `length`, or both are absent.
pub open spec fn text_trims_to(text: Option<String>, length: usize, trimmed: Option<String>) -> bool {
    match (text, trimmed) {
        (Some(t), Some(r)) => t.trims_to(length, r),
        (None, None) => true,
        _ => false,
    }
}

fn trim_optional(text: Option<String>, length: usize) -> (trimmed: Option<String>)
    ensures
        text_trims_to(text, length, trimmed),
{
    match text {
        Some(t) => Some(t.trim_text(length)),
        None => None,
    }
}

impl TrimTextValue for Addr {
    open spec fn trims_to(self, length: usize, trimmed: Self) -> bool {
        &&& text_trims_to(self.name, length, trimmed.name)
        &&& text_trims_to(self.address, length, trimmed.address)
    }

    fn trim_text(self, length: usize) -> (trimmed: Self) {
        Addr { name: trim_optional(self.name, length), address: trim_optional(self.address, length) }
    }
}

impl TrimTextValue for Group {
    open spec fn trims_to(self, length: usize, trimmed: Self) -> bool {
        &&& text_trims_to(self.name, length, trimmed.name)
        &&& self.addresses.trims_to(length, trimmed.addresses)
    }

    fn trim_text(self, length: usize) -> (trimmed: Self) {
        Group {
            name: trim_optional(self.name, length),
            addresses: self.addresses.trim_text(length),
        }
    }
}

impl TrimTextValue for HeaderValue {
    open spec fn trims_to(self, length: usize, trimmed: Self) -> bool {
        match (self, trimmed) {
            (HeaderValue::AddressList(v), HeaderValue::AddressList(r)) => v.trims_to(length, r),
            (HeaderValue::AddressGroups(v), HeaderValue::AddressGroups(r)) => v.trims_to(
                length,
                r,
            ),
            (HeaderValue::Text(v), HeaderValue::Text(r)) => v.trims_to(length, r),
            (HeaderValue::TextList(v), HeaderValue::TextList(r)) => v.trims_to(length, r),
            (HeaderValue::Other, HeaderValue::Other) => true,
            _ => false,
        }
    }

    fn trim_text(self, length: usize) -> (trimmed: Self) {
        match self {
            HeaderValue::AddressList(v) => HeaderValue::AddressList(v.trim_text(length)),
            HeaderValue::AddressGroups(v) => HeaderValue::AddressGroups(v.trim_text(length)),
            HeaderValue::Text(v) => HeaderValue::Text(v.trim_text(length)),
            HeaderValue::TextList(v) => HeaderValue::TextList(v.trim_text(length)),
            HeaderValue::Other => HeaderValue::Other,
        }
    }
}

/// The texts of an address header with what each one is, as mathematical
/// values.
pub open spec fn elements_view(elements: Seq<(AddressElement, String)>) -> Seq<
    (AddressElement, Seq<char>),
> {
    elements.map_values(|e: (AddressElement, String)| (e.0, e.1@))
}

/// The texts of one address: its name, then its mail address, as far as it
/// has them.
pub open spec fn addr_elements(addr: Addr) -> Seq<(AddressElement, Seq<char>)> {
    (match addr.name {
        Some(name) => seq![(AddressElement::Name, name@)],
        None => Seq::empty(),
    }) + (match addr.address {
        Some(address) => seq![(AddressElement::Address, address@)],
        None => Seq::empty(),
    })
}

/// The texts of a list of addresses, in order.
pub open spec fn list_elements(addrs: Seq<Addr>) -> Seq<(AddressElement, Seq<char>)>
    decreases addrs.len(),
{
    if addrs.len() == 0 {
        Seq::empty()
    } else {
        list_elements(addrs.drop_last()) + addr_elements(addrs.last())
    }
}

/// The texts of a group: its name, if it has one, then those of its
/// addresses.
pub open spec fn group_elements(group: Group) -> Seq<(AddressElement, Seq<char>)> {
    (match group.name {
        Some(name) => seq![(AddressElement::GroupName, name@)],
        None => Seq::empty(),
    }) + list_elements(group.addresses@)
}

/// The texts of a list of groups, in order.
pub open spec fn groups_elements(groups: Seq<Group>) -> Seq<(AddressElement, Seq<char>)>
    decreases groups.len(),
{
    if groups.len() == 0 {
        Seq::empty()
    } else {
        groups_elements(groups.drop_last()) + group_elements(groups.last())
    }
}

/// The texts of an address header, in the order in which they are visited. A
/// header that holds no addresses has none.
pub open spec fn header_elements(value: HeaderValue) -> Seq<(AddressElement, Seq<char>)> {
    match value {
        HeaderValue::AddressList(addrs) => list_elements(addrs@),
        HeaderValue::AddressGroups(groups) => groups_elements(groups@),
        _ => Seq::empty(),
    }
}

/// The texts of a text header, in order. A header that holds no text has
/// none.
pub open spec fn header_texts(value: HeaderValue) -> Seq<Seq<char>> {
    match value {
        HeaderValue::Text(text) => seq![text@],
        HeaderValue::TextList(texts) => texts@.map_values(|t: String| t@),
        _ => Seq::empty(),
    }
}

fn push_addr(elements: &mut Vec<(AddressElement, String)>, addr: &Addr)
    ensures
        elements_view(final(elements)@) == elements_view(old(elements)@) + addr_elements(*addr),
{
    let ghost start = elements_view(elements@);
    match &addr.name {
        Some(name) => {
            elements.push((AddressElement::Name, name.clone()));
        },
        None => {},
    }
    let ghost middle = elements_view(elements@);
    proof {
        assert(middle =~= start + (match addr.name {
            Some(name) => seq![(AddressElement::Name, name@)],
            None => Seq::empty(),
        }));
    }
    match &addr.address {
        Some(address) => {
            elements.push((AddressElement::Address, address.clone()));
        },
        None => {},
    }
    proof {
        assert(elements_view(elements@) =~= middle + (match addr.address {
            Some(address) => seq![(AddressElement::Address, address@)],
            None => Seq::empty(),
        }));
        assert(elements_view(elements@) =~= start + addr_elements(*addr));
    }
}

fn push_list(elements: &mut Vec<(AddressElement, String)>, addrs: &Vec<Addr>)
    ensures
        elements_view(final(elements)@) == elements_view(old(elements)@) + list_elements(addrs@),
{
    let ghost start = elements_view(elements@);
    let mut i: usize = 0;
    proof {
        assert(addrs@.take(0) =~= Seq::<Addr>::empty());
        assert(start + list_elements(addrs@.take(0)) =~= start);
    }
    while i < addrs.len()
        invariant
            i <= addrs.len(),
            elements_view(elements@) == start + list_elements(addrs@.take(i as int)),
        decreases addrs.len() - i,
    {
        proof {
            assert(addrs@.take(i + 1).drop_last() =~= addrs@.take(i as int));
            assert(addrs@.take(i + 1).last() == addrs@[i as int]);
        }
        push_addr(elements, &addrs[i]);
        proof {
            assert(elements_view(elements@) =~= start + list_elements(addrs@.take(i + 1)));
        }
        i += 1;
    }
    proof {
        assert(addrs@.take(addrs.len() as int) =~= addrs@);
    }
}

impl HeaderValue {
    /// The names and addresses of an address header, each with what it is, in
    /// the order in which they stand.
    pub fn address_elements(&self) -> (elements: Vec<(AddressElement, String)>)
        ensures
            elements_view(elements@) == header_elements(*self),
    {
        let mut elements: Vec<(AddressElement, String)> = Vec::new();
        proof {
            assert(elements_view(elements@) =~= Seq::<(AddressElement, Seq<char>)>::empty());
        }
        match self {
            HeaderValue::AddressList(addrs) => {
                push_list(&mut elements, addrs);
                proof {
                    assert(Seq::<(AddressElement, Seq<char>)>::empty() + list_elements(addrs@)
                        =~= list_elements(addrs@));
                }
            },
            HeaderValue::AddressGroups(groups) => {
                let mut i: usize = 0;
                proof {
                    assert(groups@.take(0) =~= Seq::<Group>::empty());
                }
                while i < groups.len()
                    invariant
                        i <= groups.len(),
                        elements_view(elements@) == groups_elements(groups@.take(i as int)),
                    decreases groups.len() - i,
                {
                    let ghost before = elements_view(elements@);
                    proof {
                        assert(groups@.take(i + 1).drop_last() =~= groups@.take(i as int));
                        assert(groups@.take(i + 1).last() == groups@[i as int]);
                    }
                    match &groups[i].name {
                        Some(name) => {
                            elements.push((AddressElement::GroupName, name.clone()));
                        },
                        None => {},
                    }
                    let ghost named = elements_view(elements@);
                    proof {
                        assert(named =~= before + (match groups@[i as int].name {
                            Some(name) => seq![(AddressElement::GroupName, name@)],
                            None => Seq::empty(),
                        }));
                    }
                    push_list(&mut elements, &groups[i].addresses);
                    proof {
                        assert(elements_view(elements@) =~= before + group_elements(
                            groups@[i as int],
                        ));
                    }
                    i += 1;
                }
                proof {
                    assert(groups@.take(groups.len() as int) =~= groups@);
                }
            },
            _ => {},
        }
        elements
    }

    /// The texts of a text header, in the order in which they stand.
    pub fn texts(&self) -> (texts: Vec<String>)
        ensures
            texts@.map_values(|t: String| t@) == header_texts(*self),
    {
        let mut texts: Vec<String> = Vec::new();
        match self {
            HeaderValue::Text(text) => {
                texts.push(text.clone());
                proof {
                    assert(texts@.map_values(|t: String| t@) =~= seq![text@]);
                }
            },
            HeaderValue::TextList(list) => {
                let mut i: usize = 0;
                while i < list.len()
                    invariant
                        i <= list.len(),
                        texts@.map_values(|t: String| t@) =~= list@.map_values(|t: String| t@).take(
                            i as int,
                        ),
                    decreases list.len() - i,
                {
                    let ghost before = texts@;
                    let text = list[i].clone();
                    texts.push(text);
                    proof {
                        let goal = list@.map_values(|t: String| t@).take(i + 1);
                        assert(before.map_values(|t: String| t@).len() == i);
                        assert forall|k: int| 0 <= k < i + 1 implies texts@.map_values(
                            |t: String| t@,
                        )[k] == goal[k] by {
                            if k < i {
                                assert(before.map_values(|t: String| t@)[k] == list@.map_values(
                                    |t: String| t@,
                                ).take(i as int)[k]);
                            }
                        }
                    }
                    i += 1;
                }
                proof {
                    assert(list@.map_values(|t: String| t@).take(list.len() as int)
                        =~= list@.map_values(|t: String| t@));
                }
            },
            _ => {
                proof {
                    assert(texts@.map_values(|t: String| t@) =~= Seq::<Seq<char>>::empty());
                }
            },
        }
        texts
    }
}

/// The sort text after the elements were looked at in order: group names are
/// passed over, names are added until one does not fit, and the first mail
/// address is added and ends the text.
pub open spec fn sort_text_after(
    text: SortTextView,
    elements: Seq<(AddressElement, Seq<char>)>,
) -> SortTextView
    decreases elements.len(),
{
    if elements.len() == 0 {
        text
    } else {
        match elements.first().0 {
            AddressElement::GroupName => sort_text_after(text, elements.drop_first()),
            AddressElement::Name => if text.with_part(elements.first().1).1 {
                sort_text_after(text.with_part(elements.first().1).0, elements.drop_first())
            } else {
                text.with_part(elements.first().1).0
            },
            AddressElement::Address => text.with_part(elements.first().1).0,
        }
    }
}

/// The text under which an address header is sorted: the names up to the
/// first mail address and that address, in lower case and separated by single
/// spaces; `!` where there is none.
pub fn address_sort_text(value: &HeaderValue) -> (text: String)
    ensures
        text@ == sort_text_after(
            SortTextView { buf: Seq::empty(), last_is_space: true },
            header_elements(*value),
        ).built(),
{
    let elements = value.address_elements();
    let ghost all = elements_view(elements@);
    let ghost start = SortTextView { buf: Seq::<char>::empty(), last_is_space: true };
    let mut builder = SortedAddressBuilder::new();
    let mut i: usize = 0;
    proof {
        assert(all.skip(0) =~= all);
    }
    while i < elements.len()
        invariant
            i <= elements.len(),
            all == elements_view(elements@),
            all == header_elements(*value),
            start == (SortTextView { buf: Seq::<char>::empty(), last_is_space: true }),
            sort_text_after(start, all) == sort_text_after(builder@, all.skip(i as int)),
        decreases elements.len() - i,
    {
        let ghost current = builder@;
        let ghost ahead = all.skip(i as int);
        proof {
            assert(ahead.len() > 0);
            assert(ahead.first() == (elements@[i as int].0, elements@[i as int].1@));
            assert(ahead.drop_first() =~= all.skip(i + 1));
            assert(sort_text_after(current, ahead) == match ahead.first().0 {
                AddressElement::GroupName => sort_text_after(current, ahead.drop_first()),
                AddressElement::Name => if current.with_part(ahead.first().1).1 {
                    sort_text_after(current.with_part(ahead.first().1).0, ahead.drop_first())
                } else {
                    current.with_part(ahead.first().1).0
                },
                AddressElement::Address => current.with_part(ahead.first().1).0,
            });
        }
        match elements[i].0 {
            AddressElement::GroupName => {},
            AddressElement::Name => {
                if !builder.push(elements[i].1.as_str()) {
                    return builder.build();
                }
            },
            AddressElement::Address => {
                builder.push(elements[i].1.as_str());
                return builder.build();
            },
        }
        i += 1;
    }
    builder.build()
}

/// The thread name that `mail_parser` finds in a subject: the subject without
/// the reply and forward marks around it.
pub uninterp spec fn thread_name_of(subject: Seq<char>) -> Seq<char>;

/// Calls `mail_parser::parsers::fields::thread::thread_name`, which returns
/// the part of the subject that names the thread. The result depends on the
/// subject alone.
#[verifier::external_body]
fn thread_name<'a>(subject: &'a str) -> (name: &'a str)
    ensures
        name@ == thread_name_of(subject@),
{
    mail_parser::parsers::fields::thread::thread_name(subject)
}

/// What a thread name is sorted under, as bytes: the name cut to the sort
/// length, or `!` where the name is empty.
pub open spec fn thread_sort_bytes(name: Seq<char>) -> Seq<u8> {
    if name.len() > 0 {
        crate::trim_text::trimmed_slice(
            vstd::utf8::encode_utf8(name),
            crate::sort_text::MAX_SORT_FIELD_LENGTH,
        )
    } else {
        vstd::utf8::encode_utf8(seq!['!'])
    }
}

/// The text under which a thread name is sorted.
pub fn thread_sort_text<'a>(name: &'a str) -> (text: &'a str)
    ensures
        text.spec_bytes() == thread_sort_bytes(name@),
{
    if !name.is_empty() {
        name.trim_text(crate::sort_text::MAX_SORT_FIELD_LENGTH)
    } else {
        proof {
            reveal_strlit("!");
            assert("!"@ =~= seq!['!']);
        }
        "!"
    }
}

/// The text under which a subject is sorted: that of its thread name.
pub fn subject_sort_text<'a>(subject: &'a str) -> (text: &'a str)
    ensures
        text.spec_bytes() == thread_sort_bytes(thread_name_of(subject@)),
{
    thread_sort_text(thread_name(subject))
}

} // verus!
