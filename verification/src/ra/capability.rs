//! The catalog predicates that the host can answer.
//!
//! Entries of the catalog that are disabled are absent on purpose: demanding
//! one fails when a program is planned, and this set is the backstop for
//! anything that reaches execution anyway.

use crate::plan::catalog::v0_entries;
use crate::text::{owned, str_eq, texts};
use vstd::prelude::*;

verus! {

/// A capability, by the name of its predicate.
#[derive(Debug, Clone, PartialEq, Eq, PartialOrd, Ord, Hash)]
pub struct CapabilityId(String);

impl View for CapabilityId {
    type V = Seq<char>;

    closed spec fn view(&self) -> Seq<char> {
        self.0@
    }
}

impl CapabilityId {
    pub fn new(name: &str) -> (r: Self)
        ensures
            r@ == name@,
    {
        CapabilityId(owned(name))
    }

    pub fn as_str(&self) -> (r: &str)
        ensures
            r@ == self@,
    {
        self.0.as_str()
    }
}

/// Distinct capabilities.
#[derive(Debug, Clone, PartialEq, Eq)]
pub struct CapabilitySet {
    ids: Vec<CapabilityId>,
}

impl View for CapabilitySet {
    type V = Seq<Seq<char>>;

    closed spec fn view(&self) -> Seq<Seq<char>> {
        self.ids@.map_values(|id: CapabilityId| id@)
    }
}

impl CapabilitySet {
    pub fn new() -> (r: Self)
        ensures
            r@ == Seq::<Seq<char>>::empty(),
    {
        let r = CapabilitySet { ids: Vec::new() };
        assert(r@ =~= Seq::<Seq<char>>::empty());
        r
    }

    pub fn len(&self) -> (r: usize)
        ensures
            r == self@.len(),
    {
        self.ids.len()
    }

    pub fn get(&self, i: usize) -> (r: &CapabilityId)
        requires
            i < self@.len(),
        ensures
            r@ == self@[i as int],
    {
        &self.ids[i]
    }

    pub fn contains(&self, name: &str) -> (r: bool)
        ensures
            r == self@.contains(name@),
    {
        let mut i: usize = 0;
        while i < self.ids.len()
            invariant
                i <= self.ids@.len(),
                self@.len() == self.ids@.len(),
                forall|k: int| 0 <= k < i ==> #[trigger] self@[k] != name@,
            decreases self.ids.len() - i,
        {
            assert(self@[i as int] == self.ids@[i as int]@);
            if str_eq(self.ids[i].as_str(), name) {
                return true;
            }
            i += 1;
        }
        false
    }

    /// Adds a capability, unless it is there.
    pub fn insert(&mut self, name: &str)
        ensures
            final(self)@ == crate::ra::store::with_row(old(self)@, name@),
    {
        if !self.contains(name) {
            let ghost before = self@;
            self.ids.push(CapabilityId::new(name));
            assert(self@ =~= before.push(name@));
        }
    }
}

/// The predicates that the host can answer.
pub open spec fn supported_names() -> Seq<Seq<char>> {
    seq![
        "def"@,
        "def_at"@,
        "def_kind"@,
        "def_name"@,
        "def_path"@,
        "def_span"@,
        "fn_def"@,
        "call_edge"@,
        "callee"@,
        "caller"@,
        "in_test"@,
        "is_public"@,
        "span_allowed"@,
        "handle"@,
        "span_key"@,
    ]
}

/// The predicates that the host can answer.
pub fn supported_capabilities() -> (r: CapabilitySet)
    ensures
        r@ == supported_names(),
{
    let mut ids: Vec<CapabilityId> = Vec::new();
    ids.push(CapabilityId::new("def"));
    ids.push(CapabilityId::new("def_at"));
    ids.push(CapabilityId::new("def_kind"));
    ids.push(CapabilityId::new("def_name"));
    ids.push(CapabilityId::new("def_path"));
    ids.push(CapabilityId::new("def_span"));
    ids.push(CapabilityId::new("fn_def"));
    ids.push(CapabilityId::new("call_edge"));
    ids.push(CapabilityId::new("callee"));
    ids.push(CapabilityId::new("caller"));
    ids.push(CapabilityId::new("in_test"));
    ids.push(CapabilityId::new("is_public"));
    ids.push(CapabilityId::new("span_allowed"));
    ids.push(CapabilityId::new("handle"));
    ids.push(CapabilityId::new("span_key"));
    let r = CapabilitySet { ids };
    assert(r@ =~= supported_names());
    r
}

/// The first of the required capabilities that the host cannot answer.
pub open spec fn first_unsupported(required: Seq<Seq<char>>) -> Option<Seq<char>>
    decreases required.len(),
{
    if required.len() == 0 {
        None
    } else if !supported_names().contains(required[0]) {
        Some(required[0])
    } else {
        first_unsupported(required.drop_first())
    }
}

/// The message for a predicate that the host cannot answer.
pub open spec fn unsupported_text(predicate: Seq<char>) -> Seq<char> {
    "unsupported rust-analyzer runtime capability: "@ + predicate
}

/// Refuses requirements that the host cannot answer, naming the first of them.
pub fn check_capabilities(required: &Vec<String>) -> (r: Result<(), String>)
    ensures
        match r {
            Ok(_) => first_unsupported(texts(required@)) is None,
            Err(message) => match first_unsupported(texts(required@)) {
                Some(name) => message@ == unsupported_text(name),
                None => false,
            },
        },
{
    let supported = supported_capabilities();
    let ghost all = texts(required@);
    let mut i: usize = 0;
    assert(all.skip(0) =~= all);
    while i < required.len()
        invariant
            supported@ == supported_names(),
            all == texts(required@),
            i <= required@.len(),
            first_unsupported(all) == first_unsupported(all.skip(i as int)),
        decreases required.len() - i,
    {
        proof {
            assert(all.skip(i as int)[0] == required@[i as int]@);
            assert(all.skip(i as int).drop_first() =~= all.skip(i + 1));
        }
        if !supported.contains(required[i].as_str()) {
            return Err(
                crate::text::cat2(
                    "unsupported rust-analyzer runtime capability: ",
                    required[i].as_str(),
                ),
            );
        }
        i += 1;
    }
    Ok(())
}

/// The host supports the predicate at a place of the catalog exactly if the
/// catalog does not disable it.
pub proof fn law_supported_is_what_the_catalog_enables(i: int)
    requires
        0 <= i < v0_entries().len(),
    ensures
        supported_names().contains(v0_entries()[i].name) <==> !(v0_entries()[i].completeness
            is Disabled),
{
    let names = supported_names();
    assert(names[0] == "def"@ && names[1] == "def_at"@ && names[2] == "def_kind"@ && names[3]
        == "def_name"@ && names[4] == "def_path"@ && names[5] == "def_span"@ && names[6]
        == "fn_def"@ && names[7] == "call_edge"@ && names[8] == "callee"@ && names[9]
        == "caller"@ && names[10] == "in_test"@ && names[11] == "is_public"@ && names[12]
        == "span_allowed"@ && names[13] == "handle"@ && names[14] == "span_key"@);
    lemma_roadmap_is_unsupported();
}

/// No predicate of the roadmap is supported.
proof fn lemma_roadmap_is_unsupported()
    ensures
        !supported_names().contains("constructs"@),
        !supported_names().contains("propagates"@),
        !supported_names().contains("converts"@),
        !supported_names().contains("handles"@),
        !supported_names().contains("compares"@),
        !supported_names().contains("writes"@),
{
    reveal_strlit("constructs");
    reveal_strlit("propagates");
    reveal_strlit("converts");
    reveal_strlit("handles");
    reveal_strlit("compares");
    reveal_strlit("writes");
    reveal_strlit("def");
    reveal_strlit("def_at");
    reveal_strlit("def_kind");
    reveal_strlit("def_name");
    reveal_strlit("def_path");
    reveal_strlit("def_span");
    reveal_strlit("fn_def");
    reveal_strlit("call_edge");
    reveal_strlit("callee");
    reveal_strlit("caller");
    reveal_strlit("in_test");
    reveal_strlit("is_public");
    reveal_strlit("span_allowed");
    reveal_strlit("handle");
    reveal_strlit("span_key");
    let names = supported_names();
    assert forall|k: int| 0 <= k < names.len() implies names[k] != "constructs"@ && names[k]
        != "propagates"@ && names[k] != "converts"@ && names[k] != "handles"@ && names[k]
        != "compares"@ && names[k] != "writes"@ by {
        let name = names[k];
        assert(name.len() == 3 || name.len() == 6 || name.len() == 7 || name.len() == 8
            || name.len() == 9 || name.len() == 12);
        if name.len() == 6 {
            assert(name[0] != 'w');
        }
        if name.len() == 7 {
            assert(name[0] != 'h');
        }
        if name.len() == 8 {
            assert(name[0] != 'c');
        }
    }
}

} // verus!
