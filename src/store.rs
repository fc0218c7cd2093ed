use vstd::prelude::*;

use crate::allow_set::AllowSet;
use crate::cidr::{cidr_parsed, Cidr};
use crate::grammar::{
    entry_of, lemma_round_trip, parse_lines, lemma_split_lines_no_newline, parse_allow_file, parse_text,
    render_allow_file, render_text, split_lines, RejectedLine,
};

verus! {

/// The set that loading the file text `s` gives: what it holds, or the empty
/// set when any line is bad. A partly trusted list would let through what
/// nobody meant to allow; an empty one lets nothing through until the next
/// successful fetch fills it.
pub open spec fn loaded_set(s: Seq<char>) -> Set<Cidr> {
    match parse_text(s) {
        Ok(set) => set,
        Err(_) => Set::empty(),
    }
}

/// The stored set after `update` with `candidate`, and whether it changed.
pub open spec fn update_outcome(stored: Set<Cidr>, candidate: Set<Cidr>) -> (Set<Cidr>, bool) {
    (candidate, stored != candidate)
}

/// The allow-list as stored: the set that is, or is about to be, in the
/// backing file.
pub struct AllowList {
    allow_list: AllowSet,
}

impl View for AllowList {
    type V = Set<Cidr>;

    closed spec fn view(&self) -> Set<Cidr> {
        self.allow_list@
    }
}

impl AllowList {
    pub closed spec fn wf(&self) -> bool {
        self.allow_list.wf()
    }

    /// The entries in the order in which `save` writes them.
    pub closed spec fn seq(&self) -> Seq<Cidr> {
        self.allow_list.seq()
    }

    /// The stored set is the set of the written entries, each once.
    pub proof fn lemma_view(&self)
        requires
            self.wf(),
        ensures
            self@ == self.seq().to_set(),
            self.seq().no_duplicates(),
    {
        self.allow_list.lemma_view();
    }

    /// Builds the store from the backing file's text (empty for a new file).
    /// A bad line leaves the store empty and is handed back for reporting.
    pub fn load(content: &str) -> (r: (AllowList, Option<RejectedLine>))
        ensures
            r.0.wf(),
            r.0@ == loaded_set(content@),
            (r.1 is None) == (parse_text(content@) is Ok),
            r.1 matches Some(e) ==> {
                &&& parse_text(content@) == Result::<Set<Cidr>, nat>::Err(e.index as nat)
                &&& e.entry@ == entry_of(split_lines(content@)[e.index as int])
            },
    {
        match parse_allow_file(content) {
            Ok(set) => (AllowList { allow_list: set }, None),
            Err(e) => (AllowList { allow_list: AllowSet::new() }, Some(e)),
        }
    }

    /// Takes `candidate` as the stored set and says whether it differs from
    /// the set stored before, as sets: the order of entries is no change.
    /// When it returns `true` the caller writes `save`'s text to the file;
    /// the store keeps `candidate` whether or not that write succeeds.
    pub fn update(&mut self, candidate: AllowSet) -> (changed: bool)
        requires
            old(self).wf(),
            candidate.wf(),
        ensures
            final(self).wf(),
            (final(self)@, changed) == update_outcome(old(self)@, candidate@),
            !changed ==> *final(self) == *old(self),
    {
        if self.allow_list.same_as(&candidate) {
            false
        } else {
            self.allow_list = candidate;
            true
        }
    }

    /// The full text to write over the backing file: one `allow <CIDR>;`
    /// line for each entry. Reading it back gives the stored set.
    pub fn save(&self) -> (r: String)
        requires
            self.wf(),
        ensures
            r@ == render_text(self.seq()),
            parse_text(r@) == Result::<Set<Cidr>, nat>::Ok(self@),
            loaded_set(r@) == self@,
    {
        proof {
            lemma_round_trip(self.allow_list);
        }
        render_allow_file(&self.allow_list)
    }

    /// The stored set.
    pub fn allow_set(&self) -> (r: &AllowSet)
        ensures
            r@ == self@,
            r.seq() == self.seq(),
            self.wf() ==> r.wf(),
    {
        &self.allow_list
    }
}

/// A file whose valid entry line is followed by a malformed line is
/// rejected at that second line, and loading it gives the empty set, not
/// the one entry before it.
pub proof fn lemma_fail_closed(good: Seq<char>, bad: Seq<char>)
    requires
        !good.contains('\n'),
        !bad.contains('\n'),
        entry_of(good).len() > 0,
        cidr_parsed(entry_of(good)) is Some,
        entry_of(bad).len() > 0,
        cidr_parsed(entry_of(bad)) is None,
    ensures
        parse_text(good + seq!['\n'] + bad) == Result::<Set<Cidr>, nat>::Err(1),
        loaded_set(good + seq!['\n'] + bad) == Set::<Cidr>::empty(),
{
    let e = Seq::<char>::empty();
    lemma_split_lines_no_newline(e, good);
    assert(e + good == good);
    assert(split_lines(e) == seq![e]);
    assert(split_lines(good) =~= seq![good]);
    let first = good + seq!['\n'];
    assert(first.drop_last() == good);
    assert(split_lines(first) =~= seq![good, e]);
    lemma_split_lines_no_newline(first, bad);
    assert(e + bad == bad);
    assert(split_lines(first + bad) =~= seq![good, bad]);
    let ls = seq![good, bad];
    assert(ls.drop_last() =~= seq![good]);
    assert(seq![good].drop_last() =~= Seq::<Seq<char>>::empty());
    assert(ls.last() == bad);
    assert(seq![good].last() == good);
    assert(parse_lines(Seq::<Seq<char>>::empty()) == Result::<Set<Cidr>, nat>::Ok(Set::empty()));
    assert(parse_lines(seq![good]) is Ok);
    assert(parse_lines(ls) == Result::<Set<Cidr>, nat>::Err(1));
}

/// Updating twice with the same candidate changes the stored set at most
/// the first time: the second update finds nothing to write.
pub proof fn lemma_update_idempotent(stored: Set<Cidr>, candidate: Set<Cidr>)
    ensures
        update_outcome(stored, candidate).1 == (stored != candidate),
        update_outcome(update_outcome(stored, candidate).0, candidate) == (candidate, false),
{
}

/// Candidates that hold the same prefixes in another order, or with some
/// repeated, are no change to a store that holds either of them.
pub proof fn lemma_reorder_is_no_change(a: Seq<Cidr>, b: Seq<Cidr>)
    requires
        forall|c: Cidr| a.contains(c) <==> b.contains(c),
    ensures
        update_outcome(a.to_set(), b.to_set()) == (b.to_set(), false),
{
    assert(a.to_set() =~= b.to_set());
}

} // verus!
