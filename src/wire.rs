use crate::chooser::{Choice, ChoiceVariant, Filter, FilterKind, FinalChoice};
use bstr::ByteVec;
use vstd::prelude::*;

verus! {

/// A filter as it travels on the wire: a name and `(code, value)` rules,
/// code 0 for a glob and 1 for a MIME type.
pub type FileFilter = (String, Vec<(u32, String)>);

/// A choice as it travels on the wire: id, label, `(id, label)` variants and
/// the default variant's id.
pub type WireChoice = (String, String, Vec<(String, String)>, String);

/// A path field whose wire bytes were NUL-terminated.
#[derive(Clone, Debug)]
pub struct FilePath(pub String);

/// The wire bytes of a path field were not a NUL-terminated string.
#[derive(Clone, Copy, Debug, PartialEq, Eq, Structural)]
pub struct MalformedPath;

/// The text that lossy UTF-8 decoding makes of `bytes`.
pub uninterp spec fn lossy_text_of(bytes: Seq<u8>) -> Seq<char>;

/// Relies on `bstr::ByteVec::into_string_lossy`: invalid sequences become
/// replacement characters; the text depends on the bytes alone.
#[verifier::external_body]
fn lossy_text(bytes: Vec<u8>) -> (r: String)
    ensures
        r@ == lossy_text_of(bytes@),
        bytes@.len() == 0 ==> r@.len() == 0,
{
    bytes.into_string_lossy()
}

/// The bytes end in a NUL.
pub open spec fn is_nul_terminated(bytes: Seq<u8>) -> bool {
    bytes.len() > 0 && bytes.last() == 0
}

impl FilePath {
    /// Decodes a path field: the terminating NUL is stripped and the rest
    /// decoded as text, with invalid sequences replaced.
    pub fn from_wire_bytes(bytes: Vec<u8>) -> (r: Result<FilePath, MalformedPath>)
        ensures
            r is Ok <==> is_nul_terminated(bytes@),
            r matches Ok(p) ==> p.0@ == lossy_text_of(bytes@.drop_last()),
    {
        let n = bytes.len();
        if n == 0 || bytes[n - 1] != 0 {
            return Err(MalformedPath);
        }
        let mut body = bytes;
        body.pop();
        assert(body@ =~= bytes@.drop_last());
        Ok(FilePath(lossy_text(body)))
    }
}

/// The wire rules whose code is known, in order, with their values' text.
pub open spec fn known_rules(w: Seq<(u32, String)>) -> Seq<(u32, Seq<char>)>
    decreases w.len(),
{
    if w.len() == 0 {
        Seq::empty()
    } else if w.last().0 <= 1 {
        known_rules(w.drop_last()).push((w.last().0, w.last().1@))
    } else {
        known_rules(w.drop_last())
    }
}

/// The wire rules with their values' text.
pub open spec fn wire_pairs(w: Seq<(u32, String)>) -> Seq<(u32, Seq<char>)> {
    w.map_values(|p: (u32, String)| (p.0, p.1@))
}

/// `f` is what the wire filter `w` maps to.
pub open spec fn filter_maps(w: FileFilter, f: Filter) -> bool {
    f.name@ == w.0@ && f.rules() == known_rules(w.1@)
}

/// `c` is what the wire choice `w` maps to.
pub open spec fn choice_maps(w: WireChoice, c: Choice) -> bool {
    &&& c.id@ == w.0@
    &&& c.label@ == w.1@
    &&& c.default@ == w.3@
    &&& c.variants@.len() == w.2@.len()
    &&& forall|i: int|
        0 <= i < w.2@.len() ==> (#[trigger] c.variants@[i]).id@ == w.2@[i].0@ && c.variants@[i].label@ == w.2@[i].1@
}

/// Maps a wire filter: code 0 gives a glob, code 1 a MIME type, and rules
/// with any other code are dropped.
pub fn map_filter(f: FileFilter) -> (r: Filter)
    ensures
        filter_maps(f, r),
{
    map_filter_ref(&f)
}

fn map_filter_ref(f: &FileFilter) -> (r: Filter)
    ensures
        filter_maps(*f, r),
{
    let mut elements: Vec<FilterKind> = Vec::new();
    let mut i: usize = 0;
    while i < f.1.len()
        invariant
            i <= f.1@.len(),
            elements@.map_values(|k: FilterKind| k.wire_rule()) == known_rules(f.1@.subrange(0, i as int)),
        decreases f.1@.len() - i,
    {
        let code = f.1[i].0;
        let ghost pre = f.1@.subrange(0, i as int);
        let ghost post = f.1@.subrange(0, i + 1);
        assert(post.drop_last() =~= pre);
        if code == 0 {
            elements.push(FilterKind::Glob(f.1[i].1.clone()));
        } else if code == 1 {
            elements.push(FilterKind::Mime(f.1[i].1.clone()));
        }
        assert(elements@.map_values(|k: FilterKind| k.wire_rule()) =~= known_rules(post));
        i = i + 1;
    }
    assert(f.1@.subrange(0, f.1@.len() as int) =~= f.1@);
    Filter { name: f.0.clone(), elements }
}

/// Maps a list of wire filters, in order.
pub fn map_filters(f: Vec<FileFilter>) -> (r: Vec<Filter>)
    ensures
        r@.len() == f@.len(),
        forall|i: int| 0 <= i < f@.len() ==> filter_maps(f@[i], #[trigger] r@[i]),
{
    let mut r: Vec<Filter> = Vec::new();
    let mut i: usize = 0;
    while i < f.len()
        invariant
            i <= f@.len(),
            r@.len() == i,
            forall|j: int| 0 <= j < i ==> filter_maps(f@[j], #[trigger] r@[j]),
        decreases f@.len() - i,
    {
        r.push(map_filter_ref(&f[i]));
        i = i + 1;
    }
    r
}

/// Maps a filter back to its wire form: a glob gets code 0, a MIME type 1.
pub fn unmap_filter(f: Filter) -> (r: FileFilter)
    ensures
        r.0@ == f.name@,
        wire_pairs(r.1@) == f.rules(),
{
    let mut rules: Vec<(u32, String)> = Vec::new();
    let mut i: usize = 0;
    while i < f.elements.len()
        invariant
            i <= f.elements@.len(),
            wire_pairs(rules@) =~= f.rules().subrange(0, i as int),
        decreases f.elements@.len() - i,
    {
        let ghost old_rules = rules@;
        match &f.elements[i] {
            FilterKind::Glob(v) => rules.push((0u32, v.clone())),
            FilterKind::Mime(v) => rules.push((1u32, v.clone())),
        }
        assert(rules@.last() == (rules@.last().0, rules@.last().1));
        assert(wire_pairs(rules@) =~= wire_pairs(old_rules).push(f.elements@[i as int].wire_rule()));
        assert(f.rules().subrange(0, i + 1) =~= f.rules().subrange(0, i as int).push(f.rules()[i as int]));
        i = i + 1;
    }
    (f.name, rules)
}

/// The text of a decoded path field.
pub fn map_cstr(f: FilePath) -> (r: String)
    ensures
        r@ == f.0@,
{
    f.0
}

/// Maps a wire choice and its variants, in order.
pub fn map_choice(c: WireChoice) -> (r: Choice)
    ensures
        choice_maps(c, r),
{
    map_choice_ref(&c)
}

fn map_choice_ref(c: &WireChoice) -> (r: Choice)
    ensures
        choice_maps(*c, r),
{
    let mut variants: Vec<ChoiceVariant> = Vec::new();
    let mut i: usize = 0;
    while i < c.2.len()
        invariant
            i <= c.2@.len(),
            variants@.len() == i,
            forall|j: int|
                0 <= j < i ==> (#[trigger] variants@[j]).id@ == c.2@[j].0@ && variants@[j].label@ == c.2@[j].1@,
        decreases c.2@.len() - i,
    {
        variants.push(ChoiceVariant { id: c.2[i].0.clone(), label: c.2[i].1.clone() });
        i = i + 1;
    }
    Choice { id: c.0.clone(), label: c.1.clone(), default: c.3.clone(), variants }
}

/// Maps a list of wire choices, in order.
pub fn map_choices(c: Vec<WireChoice>) -> (r: Vec<Choice>)
    ensures
        r@.len() == c@.len(),
        forall|i: int| 0 <= i < c@.len() ==> choice_maps(c@[i], #[trigger] r@[i]),
{
    let mut r: Vec<Choice> = Vec::new();
    let mut i: usize = 0;
    while i < c.len()
        invariant
            i <= c@.len(),
            r@.len() == i,
            forall|j: int| 0 <= j < i ==> choice_maps(c@[j], #[trigger] r@[j]),
        decreases c@.len() - i,
    {
        r.push(map_choice_ref(&c[i]));
        i = i + 1;
    }
    r
}

/// A final choice as a wire `(id, variant id)` pair.
pub fn map_final_choice(c: FinalChoice) -> (r: (String, String))
    ensures
        r.0@ == c.id@,
        r.1@ == c.variant_id@,
{
    (c.id, c.variant_id)
}

/// Maps final choices to wire pairs, in order.
pub fn map_final_choices(c: Vec<FinalChoice>) -> (r: Vec<(String, String)>)
    ensures
        r@.len() == c@.len(),
        forall|i: int| 0 <= i < c@.len() ==> (#[trigger] r@[i]).0@ == c@[i].id@ && r@[i].1@ == c@[i].variant_id@,
{
    let mut r: Vec<(String, String)> = Vec::new();
    let mut i: usize = 0;
    while i < c.len()
        invariant
            i <= c@.len(),
            r@.len() == i,
            forall|j: int| 0 <= j < i ==> (#[trigger] r@[j]).0@ == c@[j].id@ && r@[j].1@ == c@[j].variant_id@,
        decreases c@.len() - i,
    {
        r.push((c[i].id.clone(), c[i].variant_id.clone()));
        i = i + 1;
    }
    r
}

proof fn lemma_known_rules_codes(w: Seq<(u32, String)>)
    ensures
        forall|i: int| 0 <= i < known_rules(w).len() ==> (#[trigger] known_rules(w)[i]).0 <= 1,
    decreases w.len(),
{
    if w.len() > 0 {
        lemma_known_rules_codes(w.drop_last());
        let p = known_rules(w.drop_last());
        assert forall|i: int| 0 <= i < known_rules(w).len() implies (#[trigger] known_rules(w)[i]).0 <= 1 by {
            if i < p.len() {
                assert(known_rules(w)[i] == p[i]);
            }
        }
    }
}

proof fn lemma_known_rules_keep_all(w: Seq<(u32, String)>)
    requires
        forall|i: int| 0 <= i < w.len() ==> (#[trigger] w[i]).0 <= 1,
    ensures
        known_rules(w) == wire_pairs(w),
    decreases w.len(),
{
    if w.len() > 0 {
        lemma_known_rules_keep_all(w.drop_last());
        assert(wire_pairs(w) =~= wire_pairs(w.drop_last()).push((w.last().0, w.last().1@)));
    }
}

/// A wire filter mapped in and back out keeps its name and exactly its
/// rules of known code, in order; the tuple that comes back maps in again
/// without losing a rule.
pub proof fn filter_round_trip(w: FileFilter, f: Filter, back: FileFilter)
    requires
        filter_maps(w, f),
        back.0@ == f.name@,
        wire_pairs(back.1@) == f.rules(),
    ensures
        back.0@ == w.0@,
        wire_pairs(back.1@) == known_rules(w.1@),
        forall|i: int| 0 <= i < back.1@.len() ==> (#[trigger] back.1@[i]).0 <= 1,
        known_rules(back.1@) == wire_pairs(back.1@),
{
    lemma_known_rules_codes(w.1@);
    assert forall|i: int| 0 <= i < back.1@.len() implies (#[trigger] back.1@[i]).0 <= 1 by {
        assert(wire_pairs(back.1@)[i].0 == back.1@[i].0);
    }
    lemma_known_rules_keep_all(back.1@);
}

} // verus!
