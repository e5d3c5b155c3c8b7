//! The set of a job's triggers.
//!
//! A set holds no two triggers with the same canonical form, and holds its
//! triggers in the order of their canonical forms. So two sets with the same
//! triggers are the same sequence, in whatever order the triggers were put
//! in.

use crate::text::{lemma_text_order, text_lt};
use crate::trigger::{lemma_tagged_by_canonical, Trigger};
use vstd::prelude::*;

verus! {

/// The canonical forms of the triggers of `list`, in the order of the list.
pub open spec fn canonical_forms(list: Seq<Trigger>) -> Seq<Seq<char>> {
    list.map_values(|trigger: Trigger| trigger.canonical())
}

/// Whether each text of `forms` comes before all that follow it.
pub open spec fn ascending(forms: Seq<Seq<char>>) -> bool {
    forall|i: int, j: int| 0 <= i < j < forms.len() ==> text_lt(forms[i], forms[j])
}

/// Whether `a` and `b` hold the same texts, however often and in whatever
/// order.
pub open spec fn same_members(a: Seq<Seq<char>>, b: Seq<Seq<char>>) -> bool {
    forall|text: Seq<char>| a.contains(text) <==> b.contains(text)
}

/// An ascending sequence holds no text twice.
pub proof fn lemma_ascending_no_duplicates(forms: Seq<Seq<char>>)
    requires
        ascending(forms),
    ensures
        forms.no_duplicates(),
{
    assert forall|i: int, j: int| 0 <= i < forms.len() && 0 <= j < forms.len() && i != j implies forms[i]
        != forms[j] by {
        lemma_text_order(forms[i], forms[j], forms[i]);
        if i < j {
            assert(text_lt(forms[i], forms[j]));
        } else {
            assert(text_lt(forms[j], forms[i]));
        }
    }
}

/// The first text of an ascending sequence comes before every other text
/// of it, so the rest of the sequence holds all members but the first.
proof fn lemma_rest_members(a: Seq<Seq<char>>, b: Seq<Seq<char>>)
    requires
        ascending(a),
        ascending(b),
        same_members(a, b),
        a.len() > 0,
        b.len() > 0,
        a[0] == b[0],
    ensures
        same_members(a.drop_first(), b.drop_first()),
        ascending(a.drop_first()),
        ascending(b.drop_first()),
{
    let ra = a.drop_first();
    let rb = b.drop_first();
    lemma_ascending_no_duplicates(a);
    lemma_ascending_no_duplicates(b);
    assert forall|text: Seq<char>| ra.contains(text) implies rb.contains(text) by {
        let i = choose|i: int| 0 <= i < ra.len() && ra[i] == text;
        assert(a[i + 1] == text);
        assert(a.contains(text));
        assert(b.contains(text));
        let j = choose|j: int| 0 <= j < b.len() && b[j] == text;
        assert(j != 0);
        assert(rb[j - 1] == text);
    }
    assert forall|text: Seq<char>| rb.contains(text) implies ra.contains(text) by {
        let i = choose|i: int| 0 <= i < rb.len() && rb[i] == text;
        assert(b[i + 1] == text);
        assert(b.contains(text));
        assert(a.contains(text));
        let j = choose|j: int| 0 <= j < a.len() && a[j] == text;
        assert(j != 0);
        assert(ra[j - 1] == text);
    }
    assert forall|i: int, j: int| 0 <= i < j < ra.len() implies text_lt(ra[i], ra[j]) by {
        assert(text_lt(a[i + 1], a[j + 1]));
    }
    assert forall|i: int, j: int| 0 <= i < j < rb.len() implies text_lt(rb[i], rb[j]) by {
        assert(text_lt(b[i + 1], b[j + 1]));
    }
}

/// Two ascending sequences with the same members are the same sequence: what
/// a set holds decides the order in which it holds it.
pub proof fn lemma_ascending_unique(a: Seq<Seq<char>>, b: Seq<Seq<char>>)
    requires
        ascending(a),
        ascending(b),
        same_members(a, b),
    ensures
        a == b,
    decreases a.len(),
{
    if a.len() == 0 {
        if b.len() > 0 {
            assert(b.contains(b[0]));
            assert(a.contains(b[0]));
        }
        assert(a =~= b);
    } else {
        assert(a.contains(a[0]));
        assert(b.contains(a[0]));
        let j = choose|j: int| 0 <= j < b.len() && b[j] == a[0];
        assert(b.contains(b[0]));
        assert(a.contains(b[0]));
        let i = choose|i: int| 0 <= i < a.len() && a[i] == b[0];
        lemma_text_order(a[0], b[0], a[0]);
        if j > 0 {
            assert(text_lt(b[0], b[j]));
            if i > 0 {
                assert(text_lt(a[0], a[i]));
            }
            assert(false);
        }
        lemma_rest_members(a, b);
        lemma_ascending_unique(a.drop_first(), b.drop_first());
        assert(a =~= seq![a[0]] + a.drop_first());
        assert(b =~= seq![b[0]] + b.drop_first());
    }
}

/// Putting `text` into an ascending sequence, behind all that come before it
/// and in front of all that come after it, leaves the sequence ascending.
proof fn lemma_insert_ascending(forms: Seq<Seq<char>>, at: int, text: Seq<char>)
    requires
        ascending(forms),
        0 <= at <= forms.len(),
        forall|i: int| 0 <= i < at ==> text_lt(#[trigger] forms[i], text),
        at < forms.len() ==> text_lt(text, forms[at]),
    ensures
        ascending(forms.insert(at, text)),
        !forms.contains(text),
{
    let grown = forms.insert(at, text);
    assert forall|i: int| at <= i < forms.len() implies text_lt(text, #[trigger] forms[i]) by {
        if i > at {
            assert(text_lt(forms[at], forms[i]));
            lemma_text_order(text, forms[at], forms[i]);
        }
    }
    assert forall|i: int, j: int| 0 <= i < j < grown.len() implies text_lt(grown[i], grown[j]) by {
        if j < at {
            assert(text_lt(forms[i], forms[j]));
        } else if j == at {
            assert(text_lt(forms[i], text));
        } else if i < at {
            assert(text_lt(forms[i], forms[j - 1]));
        } else if i == at {
            assert(text_lt(text, forms[j - 1]));
        } else {
            assert(text_lt(forms[i - 1], forms[j - 1]));
        }
    }
    if forms.contains(text) {
        let i = choose|i: int| 0 <= i < forms.len() && forms[i] == text;
        lemma_text_order(text, text, text);
    }
}

/// The triggers of `list` written out one after the other, with commas
/// between.
pub open spec fn tagged_list(list: Seq<Trigger>) -> Seq<char>
    decreases list.len(),
{
    if list.len() == 0 {
        Seq::empty()
    } else if list.len() == 1 {
        list[0].tagged()
    } else {
        tagged_list(list.drop_last()) + ","@ + list.last().tagged()
    }
}

/// Lists of triggers with the same canonical forms, place by place, are
/// written out the same.
pub proof fn lemma_same_forms_same_text(a: Seq<Trigger>, b: Seq<Trigger>)
    requires
        canonical_forms(a) == canonical_forms(b),
    ensures
        tagged_list(a) == tagged_list(b),
    decreases a.len(),
{
    assert(a.len() == canonical_forms(a).len());
    assert(b.len() == canonical_forms(b).len());
    if a.len() > 0 {
        let last = a.len() - 1;
        assert(canonical_forms(a)[last] == a[last].canonical());
        assert(canonical_forms(b)[last] == b[last].canonical());
        lemma_tagged_by_canonical(a.last(), b.last());
        if a.len() > 1 {
            assert(canonical_forms(a.drop_last()) =~= canonical_forms(a).drop_last());
            assert(canonical_forms(b.drop_last()) =~= canonical_forms(b).drop_last());
            lemma_same_forms_same_text(a.drop_last(), b.drop_last());
        }
    }
}

/// Two sets that hold triggers of the same canonical forms hold them in the
/// same order and are written out as the same text, in whatever order the
/// triggers were put into either.
pub proof fn lemma_set_is_canonical(a: TriggerSet, b: TriggerSet)
    requires
        ascending(a.forms()),
        ascending(b.forms()),
        same_members(a.forms(), b.forms()),
    ensures
        a.forms() == b.forms(),
        a.json() == b.json(),
{
    lemma_ascending_unique(a.forms(), b.forms());
    lemma_same_forms_same_text(a@, b@);
}

/// The triggers of one job: no two with the same canonical form, and in the
/// order of their canonical forms.
#[derive(Debug)]
pub struct TriggerSet {
    items: Vec<Trigger>,
}

impl View for TriggerSet {
    type V = Seq<Trigger>;

    /// The triggers of the set, in the order in which it holds them.
    closed spec fn view(&self) -> Seq<Trigger> {
        self.items@
    }
}

impl TriggerSet {
    #[verifier::type_invariant]
    spec fn ordered(self) -> bool {
        ascending(canonical_forms(self.items@))
    }

    /// The canonical forms of the set's triggers, in the order of the set.
    pub open spec fn forms(&self) -> Seq<Seq<char>> {
        canonical_forms(self@)
    }

    /// Whether the set holds a trigger with the canonical form of `trigger`.
    pub open spec fn has(&self, trigger: Trigger) -> bool {
        self.forms().contains(trigger.canonical())
    }

    /// The set written out: a JSON array of its triggers, in the order of
    /// the set.
    pub open spec fn json(&self) -> Seq<char> {
        "["@ + tagged_list(self@) + "]"@
    }

    /// A set without triggers.
    pub fn new() -> (made: Self)
        ensures
            made@.len() == 0,
    {
        TriggerSet { items: Vec::new() }
    }

    /// The number of triggers in the set.
    pub fn len(&self) -> (count: usize)
        ensures
            count == self@.len(),
            ascending(self.forms()),
    {
        proof {
            use_type_invariant(self);
        }
        self.items.len()
    }

    /// The triggers of the set, in the order of their canonical forms.
    pub fn iter(&self) -> (triggers: core::slice::Iter<'_, Trigger>)
        ensures
            vstd::std_specs::slice::into_iter_elts(triggers) == self@,
            ascending(self.forms()),
    {
        proof {
            use_type_invariant(self);
        }
        self.items.as_slice().iter()
    }

    /// The trigger at place `index` of the set's order, if the set has that
    /// many.
    pub fn get(&self, index: usize) -> (trigger: Option<&Trigger>)
        ensures
            trigger is Some <==> index < self@.len(),
            trigger matches Some(found) ==> *found == self@[index as int],
    {
        if index < self.items.len() {
            Some(&self.items[index])
        } else {
            None
        }
    }

    /// Puts `trigger` into the set, at its place in the order, unless the set
    /// holds a trigger with the same canonical form already. Says whether it
    /// was put in.
    pub fn insert(&mut self, trigger: Trigger) -> (added: bool)
        ensures
            added == !old(self).has(trigger),
            added ==> exists|at: int|
                0 <= at <= old(self)@.len() && final(self)@ == #[trigger] old(self)@.insert(
                    at,
                    trigger,
                ),
            !added ==> final(self)@ == old(self)@,
            ascending(final(self).forms()),
    {
        proof {
            use_type_invariant(&*self);
        }
        let key = trigger.hash();
        let ghost forms = canonical_forms(self.items@);
        let mut at: usize = 0;
        let mut placed = false;
        while at < self.items.len() && !placed
            invariant
                0 <= at <= self.items.len(),
                self.items@ == old(self).items@,
                forms == canonical_forms(self.items@),
                ascending(forms),
                key@ == trigger.canonical(),
                forall|i: int| 0 <= i < at ==> text_lt(#[trigger] forms[i], key@),
                placed ==> at < forms.len() && text_lt(key@, forms[at as int]),
            decreases self.items.len() - at + (if placed {
                0int
            } else {
                1int
            }),
        {
            let there = self.items[at].hash();
            assert(there@ == forms[at as int]);
            if there == key {
                assert(forms.contains(key@));
                return false;
            }
            if crate::text::precedes(key.as_str(), there.as_str()) {
                placed = true;
            } else {
                proof {
                    lemma_text_order(key@, there@, key@);
                }
                at += 1;
            }
        }
        proof {
            lemma_insert_ascending(forms, at as int, key@);
            assert(canonical_forms(self.items@.insert(at as int, trigger)) =~= forms.insert(
                at as int,
                key@,
            ));
        }
        let mut items: Vec<Trigger> = Vec::new();
        core::mem::swap(&mut self.items, &mut items);
        items.insert(at, trigger);
        core::mem::swap(&mut self.items, &mut items);
        assert(self@ == old(self)@.insert(at as int, trigger));
        true
    }

    /// The set of the triggers of `list`. Of triggers with the same canonical
    /// form the set holds the first of the list.
    pub fn from_vec(list: Vec<Trigger>) -> (made: Self)
        ensures
            same_members(made.forms(), canonical_forms(list@)),
            ascending(made.forms()),
            made@.len() <= list@.len(),
            forall|i: int| 0 <= i < made@.len() ==> list@.contains(#[trigger] made@[i]),
    {
        let mut made = TriggerSet::new();
        let ghost all = list@;
        assert(canonical_forms(all.take(0)) =~= Seq::<Seq<char>>::empty());
        for next in it: list
            invariant
                it.seq() == all,
                made@.len() <= it.index(),
                same_members(made.forms(), canonical_forms(all.take(it.index() as int))),
                ascending(made.forms()),
                forall|i: int| 0 <= i < made@.len() ==> all.contains(#[trigger] made@[i]),
        {
            let ghost taken = it.index() as int;
            let ghost before = made.forms();
            let ghost members = made@;
            assert(next == all[taken]);
            let added = made.insert(next);
            proof {
                let seen = canonical_forms(all.take(taken));
                let more = canonical_forms(all.take(taken + 1));
                assert(more =~= seen.push(next.canonical()));
                assert(all.contains(next));
                if added {
                    let at = choose|at: int|
                        0 <= at <= members.len() && made@ == #[trigger] members.insert(at, next);
                    assert(made.forms() =~= before.insert(at, next.canonical()));
                    assert forall|text: Seq<char>| made.forms().contains(text) <==> more.contains(
                        text,
                    ) by {
                        lemma_insert_members(before, at, next.canonical(), text);
                        lemma_push_members(seen, next.canonical(), text);
                    }
                    assert forall|i: int| 0 <= i < made@.len() implies all.contains(
                        #[trigger] made@[i],
                    ) by {
                        if i < at {
                            assert(made@[i] == members[i]);
                        } else if i > at {
                            assert(made@[i] == members[i - 1]);
                        }
                    }
                } else {
                    assert forall|text: Seq<char>| made.forms().contains(text) <==> more.contains(
                        text,
                    ) by {
                        lemma_push_members(seen, next.canonical(), text);
                    }
                }
            }
        }
        assert(all.take(all.len() as int) =~= all);
        made
    }

    /// Writes the set out at the end of `out`: a JSON array of its triggers,
    /// in the order of their canonical forms.
    pub fn append_json(&self, out: &mut String)
        ensures
            final(out)@ == old(out)@ + self.json(),
    {
        out.append("[");
        let mut i: usize = 0;
        assert(self@.take(0) =~= Seq::<Trigger>::empty());
        assert(out@ =~= old(out)@ + "["@ + tagged_list(self@.take(0)));
        while i < self.items.len()
            invariant
                0 <= i <= self.items.len(),
                out@ == old(out)@ + "["@ + tagged_list(self@.take(i as int)),
            decreases self.items.len() - i,
        {
            let ghost shown = self@.take(i + 1);
            assert(shown.drop_last() =~= self@.take(i as int));
            assert(shown.last() == self@[i as int]);
            if i > 0 {
                out.append(",");
            }
            self.items[i].append_json(out);
            assert(out@ =~= old(out)@ + "["@ + tagged_list(shown));
            i += 1;
        }
        assert(self@.take(i as int) =~= self@);
        out.append("]");
        assert(out@ =~= old(out)@ + self.json());
    }

    /// The set written out: a JSON array of its triggers, in the order of
    /// their canonical forms.
    pub fn to_json(&self) -> (text: String)
        ensures
            text@ == self.json(),
    {
        let mut text = String::new();
        self.append_json(&mut text);
        text
    }

    /// Whether this set and `other` hold the same triggers: whether the
    /// canonical forms of the two are the same sequence.
    pub fn same_as(&self, other: &TriggerSet) -> (same: bool)
        ensures
            same == (self.forms() == other.forms()),
    {
        if self.items.len() != other.items.len() {
            assert(self.forms().len() != other.forms().len());
            return false;
        }
        let mut i: usize = 0;
        while i < self.items.len()
            invariant
                0 <= i <= self.items.len(),
                self.items.len() == other.items.len(),
                forall|j: int| 0 <= j < i ==> self.forms()[j] == other.forms()[j],
            decreases self.items.len() - i,
        {
            if !self.items[i].same_as(&other.items[i]) {
                assert(self.forms()[i as int] != other.forms()[i as int]);
                return false;
            }
            i += 1;
        }
        assert(self.forms() =~= other.forms());
        true
    }
}

impl PartialEq for TriggerSet {
    /// Whether the two sets hold triggers of the same canonical forms.
    fn eq(&self, other: &Self) -> (same: bool) {
        self.same_as(other)
    }
}

impl Eq for TriggerSet {

}

impl vstd::std_specs::cmp::PartialEqSpecImpl for TriggerSet {
    open spec fn obeys_eq_spec() -> bool {
        true
    }

    open spec fn eq_spec(&self, other: &Self) -> bool {
        self.forms() == other.forms()
    }
}

/// What a sequence holds after a text was put into it.
proof fn lemma_insert_members(forms: Seq<Seq<char>>, at: int, new: Seq<char>, text: Seq<char>)
    requires
        0 <= at <= forms.len(),
    ensures
        forms.insert(at, new).contains(text) <==> forms.contains(text) || text == new,
{
    let grown = forms.insert(at, new);
    if forms.contains(text) {
        let i = choose|i: int| 0 <= i < forms.len() && forms[i] == text;
        if i < at {
            assert(grown[i] == text);
        } else {
            assert(grown[i + 1] == text);
        }
    }
    if text == new {
        assert(grown[at] == text);
    }
    if grown.contains(text) {
        let i = choose|i: int| 0 <= i < grown.len() && grown[i] == text;
        if i < at {
            assert(forms[i] == text);
        } else if i > at {
            assert(forms[i - 1] == text);
        }
    }
}

/// What a sequence holds after a text was put at its end.
proof fn lemma_push_members(forms: Seq<Seq<char>>, new: Seq<char>, text: Seq<char>)
    ensures
        forms.push(new).contains(text) <==> forms.contains(text) || text == new,
{
    let grown = forms.push(new);
    if forms.contains(text) {
        let i = choose|i: int| 0 <= i < forms.len() && forms[i] == text;
        assert(grown[i] == text);
    }
    if text == new {
        assert(grown[forms.len() as int] == text);
    }
    if grown.contains(text) {
        let i = choose|i: int| 0 <= i < grown.len() && grown[i] == text;
        if i < forms.len() {
            assert(forms[i] == text);
        }
    }
}

} // verus!
