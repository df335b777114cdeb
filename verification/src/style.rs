//! Formatting kinds, and the map and set containers keyed by them.
//!
//! There are only a handful of formatting kinds, so both containers are dense
//! tables with one slot per kind. Keys are unique by construction.

use vstd::prelude::*;

verus! {

/// A formatting kind. Kinds are compared by identity only.
#[derive(Clone, Copy, Debug, PartialEq, Eq, Hash, Structural)]
pub enum Style {
    /// Sentinel: no formatting.
    Normie,
    /// Local highlighting; never stored in a shared document.
    Selected,
    Bold,
    Italic,
    Link,
}

impl Style {
    /// The kind's name, as it is written.
    pub fn name(&self) -> (r: &'static str)
        ensures
            r@ == (match *self {
                Style::Normie => "Normie"@,
                Style::Selected => "Selected"@,
                Style::Bold => "Bold"@,
                Style::Italic => "Italic"@,
                Style::Link => "Link"@,
            }),
    {
        match self {
            Style::Normie => "Normie",
            Style::Selected => "Selected",
            Style::Bold => "Bold",
            Style::Italic => "Italic",
            Style::Link => "Link",
        }
    }
}

/// The mathematical value of an optional payload.
pub open spec fn payload_view(p: Option<String>) -> Option<Seq<char>> {
    match p {
        Some(s) => Some(s@),
        None => None,
    }
}

/// Copies an optional payload.
pub fn copy_payload(p: &Option<String>) -> (r: Option<String>)
    ensures
        payload_view(r) == payload_view(*p),
{
    match p {
        Some(s) => Some(s.clone()),
        None => None,
    }
}

fn copy_slot(p: &Option<Option<String>>) -> (r: Option<Option<String>>)
    ensures
        slot_view(r) == slot_view(*p),
{
    match p {
        Some(v) => Some(copy_payload(v)),
        None => None,
    }
}

/// The mathematical value of one slot of the table: absent, or present with a payload.
pub open spec fn slot_view(s: Option<Option<String>>) -> Option<Option<Seq<char>>> {
    match s {
        Some(p) => Some(payload_view(p)),
        None => None,
    }
}

/// A mapping from formatting kind to an optional text payload (a link's
/// target, for instance). It is the full formatting of one run.
#[derive(Debug)]
pub struct StyleMap {
    normie: Option<Option<String>>,
    selected: Option<Option<String>>,
    bold: Option<Option<String>>,
    italic: Option<Option<String>>,
    link: Option<Option<String>>,
}

impl View for StyleMap {
    type V = Map<Style, Option<Seq<char>>>;

    closed spec fn view(&self) -> Map<Style, Option<Seq<char>>> {
        Map::new(
            |k: Style| self.slot(k) is Some,
            |k: Style| self.slot(k).unwrap(),
        )
    }
}

impl StyleMap {
    /// What the table holds for `k`.
    pub closed spec fn slot(&self, k: Style) -> Option<Option<Seq<char>>> {
        match k {
            Style::Normie => slot_view(self.normie),
            Style::Selected => slot_view(self.selected),
            Style::Bold => slot_view(self.bold),
            Style::Italic => slot_view(self.italic),
            Style::Link => slot_view(self.link),
        }
    }

    /// The empty map.
    pub fn new() -> (r: StyleMap)
        ensures
            r@ == Map::<Style, Option<Seq<char>>>::empty(),
    {
        let r = StyleMap { normie: None, selected: None, bold: None, italic: None, link: None };
        assert(r@ =~= Map::<Style, Option<Seq<char>>>::empty());
        r
    }

    fn put(&mut self, k: Style, v: Option<Option<String>>)
        ensures
            final(self).slot(k) == slot_view(v),
            forall|j: Style| j != k ==> final(self).slot(j) == old(self).slot(j),
    {
        match k {
            Style::Normie => { self.normie = v; },
            Style::Selected => { self.selected = v; },
            Style::Bold => { self.bold = v; },
            Style::Italic => { self.italic = v; },
            Style::Link => { self.link = v; },
        }
    }

    fn peek(&self, k: Style) -> (r: &Option<Option<String>>)
        ensures
            slot_view(*r) == self.slot(k),
    {
        match k {
            Style::Normie => &self.normie,
            Style::Selected => &self.selected,
            Style::Bold => &self.bold,
            Style::Italic => &self.italic,
            Style::Link => &self.link,
        }
    }

    /// Sets the entry for `k`, replacing any earlier one.
    pub fn insert(&mut self, k: Style, payload: Option<String>)
        ensures
            final(self)@ == old(self)@.insert(k, payload_view(payload)),
    {
        self.put(k, Some(payload));
        assert(final(self)@ =~= old(self)@.insert(k, payload_view(payload)));
    }

    /// Drops the entry for `k`, if there is one.
    pub fn remove(&mut self, k: Style)
        ensures
            final(self)@ == old(self)@.remove(k),
    {
        self.put(k, None);
        assert(final(self)@ =~= old(self)@.remove(k));
    }

    /// Whether `k` has an entry.
    pub fn contains_key(&self, k: Style) -> (r: bool)
        ensures
            r == self@.contains_key(k),
    {
        self.peek(k).is_some()
    }

    /// The payload recorded for `k`: `None` where `k` has no entry,
    /// `Some(None)` where it has one without a payload.
    pub fn get(&self, k: Style) -> (r: Option<Option<String>>)
        ensures
            r is Some <==> self@.contains_key(k),
            r is Some ==> payload_view(r.unwrap()) == self@[k],
    {
        copy_slot(self.peek(k))
    }

    /// The number of entries.
    pub fn len(&self) -> (r: usize)
        ensures
            r == self@.dom().len(),
            self@.dom().finite(),
    {
        let mut n: usize = 0;
        if self.normie.is_some() { n = n + 1; }
        if self.selected.is_some() { n = n + 1; }
        if self.bold.is_some() { n = n + 1; }
        if self.italic.is_some() { n = n + 1; }
        if self.link.is_some() { n = n + 1; }
        proof {
            lemma_count(self@.dom());
        }
        n
    }

    /// Whether the map has no entry.
    pub fn is_empty(&self) -> (r: bool)
        ensures
            r == (self@ == Map::<Style, Option<Seq<char>>>::empty()),
    {
        let r = self.normie.is_none() && self.selected.is_none() && self.bold.is_none()
            && self.italic.is_none() && self.link.is_none();
        proof {
            if r {
                assert(self@ =~= Map::<Style, Option<Seq<char>>>::empty());
            } else {
                let k = if self.normie is Some { Style::Normie } else if self.selected is Some { Style::Selected }
                    else if self.bold is Some { Style::Bold } else if self.italic is Some { Style::Italic }
                    else { Style::Link };
                assert(self@.contains_key(k));
            }
        }
        r
    }

    /// A copy of this map without the entries whose kind is in `set`.
    pub fn without(&self, set: &StyleSet) -> (r: StyleMap)
        ensures
            r@ == self@.remove_keys(set@),
    {
        let mut r = self.clone();
        if set.normie { r.put(Style::Normie, None); }
        if set.selected { r.put(Style::Selected, None); }
        if set.bold { r.put(Style::Bold, None); }
        if set.italic { r.put(Style::Italic, None); }
        if set.link { r.put(Style::Link, None); }
        assert(r@ =~= self@.remove_keys(set@));
        r
    }

    /// A copy of this map with the entries of `other` merged in; where both
    /// have an entry for a kind, that of `other` stays.
    pub fn merged(&self, other: &StyleMap) -> (r: StyleMap)
        ensures
            r@ == self@.union_prefer_right(other@),
    {
        let mut r = self.clone();
        if other.normie.is_some() { r.put(Style::Normie, copy_slot(&other.normie)); }
        if other.selected.is_some() { r.put(Style::Selected, copy_slot(&other.selected)); }
        if other.bold.is_some() { r.put(Style::Bold, copy_slot(&other.bold)); }
        if other.italic.is_some() { r.put(Style::Italic, copy_slot(&other.italic)); }
        if other.link.is_some() { r.put(Style::Link, copy_slot(&other.link)); }
        assert(r@ =~= self@.union_prefer_right(other@));
        r
    }

    /// Whether both maps hold the same entries.
    pub fn same_entries(&self, other: &StyleMap) -> (r: bool)
        ensures
            r == (self@ == other@),
    {
        let r = same_slot(&self.normie, &other.normie) && same_slot(&self.selected, &other.selected)
            && same_slot(&self.bold, &other.bold) && same_slot(&self.italic, &other.italic)
            && same_slot(&self.link, &other.link);
        proof {
            if r {
                assert(self@ =~= other@);
            } else {
                let k = if slot_view(self.normie) != slot_view(other.normie) { Style::Normie }
                    else if slot_view(self.selected) != slot_view(other.selected) { Style::Selected }
                    else if slot_view(self.bold) != slot_view(other.bold) { Style::Bold }
                    else if slot_view(self.italic) != slot_view(other.italic) { Style::Italic }
                    else { Style::Link };
                assert(self.slot(k) != other.slot(k));
                assert(self@.contains_key(k) != other@.contains_key(k) || self@[k] != other@[k]);
            }
        }
        r
    }
}

fn same_slot(a: &Option<Option<String>>, b: &Option<Option<String>>) -> (r: bool)
    ensures
        r == (slot_view(*a) == slot_view(*b)),
{
    match (a, b) {
        (None, None) => true,
        (Some(None), Some(None)) => true,
        (Some(Some(x)), Some(Some(y))) => *x == *y,
        _ => false,
    }
}

proof fn lemma_count(s: Set<Style>)
    ensures
        s.finite(),
        s.len() == (if s.contains(Style::Normie) { 1nat } else { 0nat })
            + (if s.contains(Style::Selected) { 1nat } else { 0nat })
            + (if s.contains(Style::Bold) { 1nat } else { 0nat })
            + (if s.contains(Style::Italic) { 1nat } else { 0nat })
            + (if s.contains(Style::Link) { 1nat } else { 0nat }),
{
    let e = Set::<Style>::empty();
    let a = if s.contains(Style::Normie) { e.insert(Style::Normie) } else { e };
    let b = if s.contains(Style::Selected) { a.insert(Style::Selected) } else { a };
    let c = if s.contains(Style::Bold) { b.insert(Style::Bold) } else { b };
    let d = if s.contains(Style::Italic) { c.insert(Style::Italic) } else { c };
    let f = if s.contains(Style::Link) { d.insert(Style::Link) } else { d };
    assert(f =~= s);
}

impl Clone for StyleMap {
    fn clone(&self) -> (r: StyleMap)
        ensures
            r@ == self@,
            forall|k: Style| r.slot(k) == self.slot(k),
    {
        let r = StyleMap {
            normie: copy_slot(&self.normie),
            selected: copy_slot(&self.selected),
            bold: copy_slot(&self.bold),
            italic: copy_slot(&self.italic),
            link: copy_slot(&self.link),
        };
        assert(r@ =~= self@);
        r
    }
}

/// A set of formatting kinds: which kinds to remove, without their payloads.
#[derive(Clone, Copy, Debug)]
pub struct StyleSet {
    normie: bool,
    selected: bool,
    bold: bool,
    italic: bool,
    link: bool,
}

impl View for StyleSet {
    type V = Set<Style>;

    closed spec fn view(&self) -> Set<Style> {
        Set::new(|k: Style| self.has(k))
    }
}

impl StyleSet {
    /// Whether the table marks `k`.
    pub closed spec fn has(&self, k: Style) -> bool {
        match k {
            Style::Normie => self.normie,
            Style::Selected => self.selected,
            Style::Bold => self.bold,
            Style::Italic => self.italic,
            Style::Link => self.link,
        }
    }

    /// The empty set.
    pub fn new() -> (r: StyleSet)
        ensures
            r@ == Set::<Style>::empty(),
    {
        let r = StyleSet { normie: false, selected: false, bold: false, italic: false, link: false };
        assert(r@ =~= Set::<Style>::empty());
        r
    }

    fn mark(&mut self, k: Style, v: bool)
        ensures
            final(self).has(k) == v,
            forall|j: Style| j != k ==> final(self).has(j) == old(self).has(j),
    {
        match k {
            Style::Normie => { self.normie = v; },
            Style::Selected => { self.selected = v; },
            Style::Bold => { self.bold = v; },
            Style::Italic => { self.italic = v; },
            Style::Link => { self.link = v; },
        }
    }

    /// Adds `k`; returns whether it was new.
    pub fn insert(&mut self, k: Style) -> (r: bool)
        ensures
            final(self)@ == old(self)@.insert(k),
            r == !old(self)@.contains(k),
    {
        let had = self.contains(k);
        self.mark(k, true);
        assert(final(self)@ =~= old(self)@.insert(k));
        !had
    }

    /// Takes `k` out; returns whether it was there.
    pub fn remove(&mut self, k: Style) -> (r: bool)
        ensures
            final(self)@ == old(self)@.remove(k),
            r == old(self)@.contains(k),
    {
        let had = self.contains(k);
        self.mark(k, false);
        assert(final(self)@ =~= old(self)@.remove(k));
        had
    }

    /// Whether `k` is in the set.
    pub fn contains(&self, k: Style) -> (r: bool)
        ensures
            r == self@.contains(k),
    {
        match k {
            Style::Normie => self.normie,
            Style::Selected => self.selected,
            Style::Bold => self.bold,
            Style::Italic => self.italic,
            Style::Link => self.link,
        }
    }
}

} // verus!
