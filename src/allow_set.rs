use vstd::prelude::*;
use vstd::seq_lib::seq_to_set_is_finite;

use crate::cidr::{cidr_parsed, cidr_text, render_cidr, well_rendered, Cidr};

verus! {

/// A set of prefixes, unique by structural equality.
///
/// Entries are kept in the order in which they first entered the set, each
/// with its textual notation, rendered once on entry.
pub struct AllowSet {
    entries: Vec<Cidr>,
    texts: Vec<String>,
}

impl View for AllowSet {
    type V = Set<Cidr>;

    closed spec fn view(&self) -> Set<Cidr> {
        self.entries@.to_set()
    }
}

impl AllowSet {
    /// The entries in the order in which they are written out.
    pub closed spec fn seq(&self) -> Seq<Cidr> {
        self.entries@
    }

    /// The textual notation kept for the entry at `i`.
    pub closed spec fn text_at(&self, i: int) -> Seq<char> {
        self.texts@[i]@
    }

    /// No entry twice, every entry valid, and each entry's text is its
    /// standard notation.
    pub closed spec fn wf(&self) -> bool {
        &&& self.entries@.no_duplicates()
        &&& self.entries@.len() == self.texts@.len()
        &&& forall|i: int|
            0 <= i < self.entries@.len() ==> {
                &&& (#[trigger] self.entries@[i]).valid()
                &&& well_rendered(self.entries@[i])
                &&& self.texts@[i]@ == cidr_text(self.entries@[i])
            }
    }

    pub proof fn lemma_view(&self)
        requires
            self.wf(),
        ensures
            self@ == self.seq().to_set(),
            self.seq().no_duplicates(),
            forall|i: int| 0 <= i < self.seq().len() ==> #[trigger] self.text_at(i) == cidr_text(self.seq()[i]),
            forall|i: int|
                0 <= i < self.seq().len() ==> (#[trigger] self.seq()[i]).valid() && well_rendered(self.seq()[i]),
            forall|c: Cidr| #[trigger] self@.contains(c) ==> c.valid() && well_rendered(c),
    {
        assert forall|c: Cidr| #[trigger] self@.contains(c) implies c.valid() && well_rendered(c) by {
            let i = choose|i: int| 0 <= i < self.entries@.len() && self.entries@[i] == c;
        }
    }

    /// The empty set.
    pub fn new() -> (r: AllowSet)
        ensures
            r.wf(),
            r@ == Set::<Cidr>::empty(),
    {
        let r = AllowSet { entries: Vec::new(), texts: Vec::new() };
        proof {
            assert(r@ =~= Set::<Cidr>::empty());
        }
        r
    }

    /// The number of entries.
    pub fn len(&self) -> (r: usize)
        requires
            self.wf(),
        ensures
            r as nat == self@.len(),
    {
        proof {
            self.entries@.unique_seq_to_set();
        }
        self.entries.len()
    }

    /// Whether `c` is in the set.
    pub fn contains(&self, c: &Cidr) -> (r: bool)
        requires
            self.wf(),
        ensures
            r == self@.contains(*c),
    {
        let mut i: usize = 0;
        while i < self.entries.len()
            invariant
                i <= self.entries@.len(),
                forall|j: int| 0 <= j < i ==> self.entries@[j] != *c,
            decreases self.entries@.len() - i,
        {
            if self.entries[i] == *c {
                return true;
            }
            i = i + 1;
        }
        false
    }

    /// Adds `c`; a set that holds it already stays as it is.
    pub fn insert(&mut self, c: Cidr)
        requires
            old(self).wf(),
            c.valid(),
        ensures
            final(self).wf(),
            final(self)@ == old(self)@.insert(c),
            old(self)@.contains(c) ==> final(self).seq() == old(self).seq(),
            !old(self)@.contains(c) ==> final(self).seq() == old(self).seq().push(c),
    {
        if !self.contains(&c) {
            let text = render_cidr(&c);
            let ghost before = self.entries@;
            self.entries.push(c);
            self.texts.push(text);
            proof {
                assert(self.entries@ == before.push(c));
                lemma_to_set_push(before, c);
                assert(self.entries@.no_duplicates());
            }
        } else {
            proof {
                assert(self@ =~= old(self)@.insert(c));
            }
        }
    }

    /// The set of the valid prefixes in `v`, in their order of first
    /// appearance.
    pub fn from_vec(v: Vec<Cidr>) -> (r: AllowSet)
        requires
            forall|i: int| 0 <= i < v@.len() ==> (#[trigger] v@[i]).valid(),
        ensures
            r.wf(),
            r@ == v@.to_set(),
    {
        let mut r = AllowSet::new();
        for i in 0..v.len()
            invariant
                r.wf(),
                r@ == v@.subrange(0, i as int).to_set(),
                forall|j: int| 0 <= j < v@.len() ==> (#[trigger] v@[j]).valid(),
        {
            r.insert(v[i]);
            proof {
                assert(v@.subrange(0, i + 1) == v@.subrange(0, i as int).push(v@[i as int]));
                lemma_to_set_push(v@.subrange(0, i as int), v@[i as int]);
            }
        }
        proof {
            assert(v@.subrange(0, v@.len() as int) == v@);
        }
        r
    }

    /// The entries in the order in which they are written out.
    pub fn entries(&self) -> (r: &Vec<Cidr>)
        ensures
            r@ == self.seq(),
    {
        &self.entries
    }

    /// The textual notation of the entry at `i`.
    pub(crate) fn text(&self, i: usize) -> (r: &String)
        requires
            self.wf(),
            i < self.seq().len(),
        ensures
            r@ == self.text_at(i as int),
    {
        &self.texts[i]
    }

    /// Whether both sets hold the same prefixes, whatever their order.
    pub fn same_as(&self, other: &AllowSet) -> (r: bool)
        requires
            self.wf(),
            other.wf(),
        ensures
            r == (self@ == other@),
    {
        proof {
            self.lemma_view();
            other.lemma_view();
        }
        let mut i: usize = 0;
        while i < self.entries.len()
            invariant
                self.wf(),
                other.wf(),
                i <= self.entries@.len(),
                forall|j: int| 0 <= j < i ==> other@.contains(#[trigger] self.entries@[j]),
            decreases self.entries@.len() - i,
        {
            if !other.contains(&self.entries[i]) {
                proof {
                    assert(self@.contains(self.entries@[i as int]));
                }
                return false;
            }
            i = i + 1;
        }
        proof {
            assert(self@.subset_of(other@));
            self.entries@.unique_seq_to_set();
            other.entries@.unique_seq_to_set();
        }
        if self.entries.len() == other.entries.len() {
            proof {
                vstd::set_lib::lemma_subset_equality(self@, other@);
            }
            true
        } else {
            false
        }
    }
}

/// The set of the prefixes written in `ts`, or `None` when one of them is
/// not a prefix.
pub open spec fn parsed_texts(ts: Seq<String>) -> Option<Set<Cidr>>
    decreases ts.len(),
{
    if ts.len() == 0 {
        Some(Set::empty())
    } else {
        match parsed_texts(ts.drop_last()) {
            None => None,
            Some(set) => match cidr_parsed(ts.last()@) {
                Some(c) => Some(set.insert(c)),
                None => None,
            },
        }
    }
}

impl AllowSet {
    /// The set of the prefixes written in `texts`, or `None` when one of
    /// them is not a prefix: a list that is partly malformed is no set.
    pub fn parse_all(texts: &Vec<String>) -> (r: Option<AllowSet>)
        ensures
            (r is Some) == (parsed_texts(texts@) is Some),
            r matches Some(set) ==> set.wf() && parsed_texts(texts@) == Some(set@),
    {
        let mut set = AllowSet::new();
        for i in 0..texts.len()
            invariant
                set.wf(),
                parsed_texts(texts@.subrange(0, i as int)) == Some(set@),
        {
            let ghost pre = texts@.subrange(0, i as int);
            assert(texts@.subrange(0, i + 1).drop_last() == pre);
            match Cidr::parse(texts[i].as_str()) {
                Some(c) => set.insert(c),
                None => {
                    proof {
                        lemma_parsed_texts_rejected(texts@, i + 1);
                    }
                    return None;
                },
            }
        }
        assert(texts@.subrange(0, texts@.len() as int) == texts@);
        Some(set)
    }
}

proof fn lemma_parsed_texts_rejected(ts: Seq<String>, k: int)
    requires
        0 <= k <= ts.len(),
        parsed_texts(ts.subrange(0, k)) is None,
    ensures
        parsed_texts(ts) is None,
    decreases ts.len() - k,
{
    if k < ts.len() {
        assert(ts.drop_last().subrange(0, k) == ts.subrange(0, k));
        lemma_parsed_texts_rejected(ts.drop_last(), k);
    } else {
        assert(ts.subrange(0, k) == ts);
    }
}

/// Appending an element to a sequence adds it to the sequence's set.
pub proof fn lemma_to_set_push(s: Seq<Cidr>, c: Cidr)
    ensures
        s.push(c).to_set() == s.to_set().insert(c),
{
    assert forall|x: Cidr| s.push(c).to_set().contains(x) <==> s.to_set().insert(c).contains(x) by {
        if s.push(c).contains(x) && x != c {
            let i = choose|i: int| 0 <= i < s.push(c).len() && s.push(c)[i] == x;
            assert(s[i] == x);
        }
        if s.contains(x) {
            let i = choose|i: int| 0 <= i < s.len() && s[i] == x;
            assert(s.push(c)[i] == x);
        }
        if x == c {
            assert(s.push(c)[s.len() as int] == c);
        }
    }
    assert(s.push(c).to_set() =~= s.to_set().insert(c));
}

} // verus!
