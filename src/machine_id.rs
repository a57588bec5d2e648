//! Unique machine identifiers: explicit ones are kept, missing ones are
//! numbered `machine-1`, `machine-2`, ... past every identifier already taken.

use crate::config::{validation_failure, ConfigError, ErrorView};
use crate::text::{
    decimal, lemma_decimal_injective, push_decimal, push_str, str_eq, string_from, views,
};
use vstd::prelude::*;
use vstd::seq_lib::seq_to_set_is_finite;
use vstd::set_lib::lemma_len_subset;

verus! {

/// The identifier generated for number `k`.
pub open spec fn generated_id(k: nat) -> Seq<char> {
    "machine-"@ + decimal(k)
}

/// The smallest number from `next` on whose generated identifier is not taken.
pub open spec fn first_free(taken: Set<Seq<char>>, next: nat) -> nat {
    choose|k: nat| is_first_free(taken, next, k)
}

/// `k` is the smallest number from `next` on whose identifier is free.
pub open spec fn is_first_free(taken: Set<Seq<char>>, next: nat, k: nat) -> bool {
    &&& next <= k
    &&& !taken.contains(generated_id(k))
    &&& forall|j: nat| next <= j < k ==> taken.contains(#[trigger] generated_id(j))
}

/// The first identifier that repeats an earlier non-empty one, if any.
pub open spec fn first_duplicate(ids: Seq<Seq<char>>) -> Option<Seq<char>>
    decreases ids.len(),
{
    if ids.len() == 0 {
        None
    } else {
        match first_duplicate(ids.drop_last()) {
            Some(d) => Some(d),
            None => if ids.last().len() > 0 && ids.drop_last().contains(ids.last()) {
                Some(ids.last())
            } else {
                None
            },
        }
    }
}

/// The non-empty identifiers of a list.
pub open spec fn explicit_ids(ids: Seq<Seq<char>>) -> Set<Seq<char>> {
    ids.to_set().filter(|x: Seq<char>| x.len() > 0)
}

/// The identifier of each entry: its own if non-empty, else the first free
/// generated one, which is then taken.
pub open spec fn assigned_ids(ids: Seq<Seq<char>>, taken: Set<Seq<char>>, next: nat) -> Seq<
    Seq<char>,
>
    decreases ids.len(),
{
    if ids.len() == 0 {
        Seq::empty()
    } else if ids[0].len() > 0 {
        seq![ids[0]] + assigned_ids(ids.drop_first(), taken, next)
    } else {
        let k = first_free(taken, next);
        seq![generated_id(k)] + assigned_ids(
            ids.drop_first(),
            taken.insert(generated_id(k)),
            k,
        )
    }
}

/// How many identifiers of a list are empty.
pub open spec fn empties(ids: Seq<Seq<char>>) -> nat
    decreases ids.len(),
{
    if ids.len() == 0 {
        0
    } else {
        empties(ids.drop_last()) + if ids.last().len() == 0 {
            1nat
        } else {
            0nat
        }
    }
}

/// A longer prefix has at least as many empty identifiers.
pub proof fn lemma_empties_monotonic(ids: Seq<Seq<char>>, i: int, j: int)
    requires
        0 <= i <= j <= ids.len(),
    ensures
        empties(ids.take(i)) <= empties(ids.take(j)),
    decreases j - i,
{
    if i < j {
        assert(ids.take(j).drop_last() =~= ids.take(j - 1));
        lemma_empties_monotonic(ids, i, j - 1);
    }
}

/// The message for a repeated identifier.
pub open spec fn duplicate_message(id: Seq<char>) -> Seq<char> {
    "A duplicate machine ID '"@ + id + "' was found."@
}

/// Distinct numbers give distinct identifiers.
pub proof fn lemma_generated_id_injective(a: nat, b: nat)
    requires
        generated_id(a) == generated_id(b),
    ensures
        a == b,
{
    reveal_strlit("machine-");
    assert(generated_id(a).skip(8) =~= decimal(a));
    assert(generated_id(b).skip(8) =~= decimal(b));
    lemma_decimal_injective(a, b);
}

/// The identifiers of the numbers from `a` up to `k - 1`.
pub open spec fn ids_between(a: nat, k: nat) -> Set<Seq<char>>
    decreases k,
{
    if k <= a {
        Set::empty()
    } else {
        ids_between(a, (k - 1) as nat).insert(generated_id((k - 1) as nat))
    }
}

proof fn lemma_ids_between(a: nat, k: nat)
    ensures
        ids_between(a, k).finite(),
        a <= k ==> ids_between(a, k).len() == k - a,
        forall|x: Seq<char>|
            ids_between(a, k).contains(x) <==> exists|j: nat| a <= j < k && x == generated_id(j),
    decreases k,
{
    if k > a {
        let p = (k - 1) as nat;
        lemma_ids_between(a, p);
        if ids_between(a, p).contains(generated_id(p)) {
            let j = choose|j: nat| a <= j < p && generated_id(p) == generated_id(j);
            lemma_generated_id_injective(p, j);
        }
        assert forall|x: Seq<char>|
            ids_between(a, k).contains(x) implies exists|j: nat| a <= j < k && x == generated_id(j) by {
            if x != generated_id(p) {
                assert(ids_between(a, p).contains(x));
            }
        }
        assert forall|x: Seq<char>|
            (exists|j: nat| a <= j < k && x == generated_id(j)) implies ids_between(a, k).contains(
            x,
        ) by {
            let j = choose|j: nat| a <= j < k && x == generated_id(j);
            if j < p {
                assert(ids_between(a, p).contains(x));
            }
        }
    }
}

proof fn lemma_some_first_free(taken: Set<Seq<char>>, next: nat, k: nat)
    requires
        next <= k,
        !taken.contains(generated_id(k)),
    ensures
        exists|m: nat| is_first_free(taken, next, m),
    decreases k - next,
{
    if forall|j: nat| next <= j < k ==> taken.contains(#[trigger] generated_id(j)) {
        assert(is_first_free(taken, next, k));
    } else {
        let j = choose|j: nat| next <= j < k && !taken.contains(#[trigger] generated_id(j));
        lemma_some_first_free(taken, next, j);
    }
}

/// Among finitely many taken identifiers there is always a first free number.
pub proof fn lemma_first_free_exists(taken: Set<Seq<char>>, next: nat)
    requires
        taken.finite(),
    ensures
        is_first_free(taken, next, first_free(taken, next)),
{
    let hi = next + taken.len() + 1;
    lemma_ids_between(next, hi);
    if forall|j: nat| next <= j < hi ==> taken.contains(#[trigger] generated_id(j)) {
        assert(ids_between(next, hi).subset_of(taken)) by {
            assert forall|x: Seq<char>| ids_between(next, hi).contains(x) implies taken.contains(x) by {
                let j = choose|j: nat| next <= j < hi && x == generated_id(j);
            }
        }
        lemma_len_subset(ids_between(next, hi), taken);
    }
    let j = choose|j: nat| next <= j < hi && !taken.contains(#[trigger] generated_id(j));
    lemma_some_first_free(taken, next, j);
}

/// Two numbers that are both the first free one are the same.
pub proof fn lemma_first_free_unique(taken: Set<Seq<char>>, next: nat, k: nat)
    requires
        is_first_free(taken, next, k),
    ensures
        first_free(taken, next) == k,
{
    let f = first_free(taken, next);
    assert(is_first_free(taken, next, f));
    if f < k {
        assert(taken.contains(generated_id(f)));
    } else if k < f {
        assert(taken.contains(generated_id(k)));
    }
}

/// Hands out machine identifiers.
///
/// The taken identifiers are a `Vec` rather than a `HashSet<String>`: vstd's
/// `HashSet` contracts hold only for keys known to obey its key model (the
/// integer types, `bool`, and boxes of them), and for `String` that could only
/// be assumed.
pub struct MachineIdGenerator {
    id_set: Vec<String>,
    next_id: usize,
}

impl MachineIdGenerator {
    /// The identifiers taken so far.
    pub closed spec fn taken(&self) -> Set<Seq<char>> {
        views(self.id_set@).to_set()
    }

    /// Where the search for a free number starts.
    pub closed spec fn next(&self) -> nat {
        self.next_id as nat
    }

    /// How many identifiers have been taken.
    pub closed spec fn count(&self) -> nat {
        self.id_set@.len()
    }

    /// The taken identifiers are finitely many, and every number below the
    /// next one to try names a taken identifier.
    pub closed spec fn wf(&self) -> bool {
        &&& self.taken().finite()
        &&& self.next_id >= 1
        &&& forall|j: nat| 1 <= j < self.next_id ==> self.taken().contains(#[trigger] generated_id(j))
    }

    fn contains(&self, id: &str) -> (r: bool)
        ensures
            r == self.taken().contains(id@),
    {
        let mut i: usize = 0;
        while i < self.id_set.len()
            invariant
                i <= self.id_set@.len(),
                forall|j: int| 0 <= j < i ==> (#[trigger] self.id_set@[j])@ != id@,
            decreases self.id_set@.len() - i,
        {
            if str_eq(self.id_set[i].as_str(), id) {
                assert(views(self.id_set@)[i as int] == id@);
                return true;
            }
            i = i + 1;
        }
        proof {
            if views(self.id_set@).contains(id@) {
                let j = choose|j: int|
                    0 <= j < views(self.id_set@).len() && views(self.id_set@)[j] == id@;
                assert(self.id_set@[j]@ == id@);
            }
        }
        false
    }

    /// A generator that has taken every non-empty identifier of `ids`, or the
    /// error for the first one that repeats an earlier one.
    pub fn new(ids: &Vec<String>) -> (r: Result<MachineIdGenerator, ConfigError>)
        ensures
            match first_duplicate(views(ids@)) {
                Some(d) => r matches Err(e) && e@ == (ErrorView::Validation {
                    message: duplicate_message(d),
                }),
                None => r matches Ok(g) && g.wf() && g.taken() == explicit_ids(views(ids@))
                    && g.next() == 1 && g.count() + empties(views(ids@)) <= ids@.len(),
            },
    {
        let mut g = MachineIdGenerator { id_set: Vec::new(), next_id: 1 };
        let mut i: usize = 0;
        while i < ids.len()
            invariant
                i <= ids@.len(),
                g.next_id == 1,
                g.id_set@.len() + empties(views(ids@.take(i as int))) <= i,
                first_duplicate(views(ids@.take(i as int))) is None,
                g.taken() == explicit_ids(views(ids@.take(i as int))),
            decreases ids@.len() - i,
        {
            let ghost before = views(ids@.take(i as int));
            let ghost now = views(ids@.take(i + 1));
            assert(now.drop_last() =~= before);
            assert(now.last() == ids@[i as int]@);
            let id = &ids[i];
            if !id.as_str().is_empty() {
                if g.contains(id.as_str()) {
                    assert(before.contains(id@));
                    let mut message = string_from("A duplicate machine ID '");
                    push_str(&mut message, id.as_str());
                    push_str(&mut message, "' was found.");
                    proof {
                        assert(views(ids@).take(i + 1) =~= now);
                        lemma_first_duplicate_prefix(views(ids@), i + 1);
                        assert(message@ =~= duplicate_message(id@));
                    }
                    return Err(validation_failure(message));
                }
                let ghost old_set = g.id_set@;
                g.id_set.push(id.clone());
                proof {
                    assert(views(g.id_set@) =~= views(old_set).push(id@));
                    assert(now =~= before.push(id@));
                    lemma_to_set_push(views(old_set), id@);
                    lemma_to_set_push(before, id@);
                    assert(explicit_ids(now) =~= explicit_ids(before).insert(id@));
                }
            } else {
                proof {
                    assert(now =~= before.push(id@));
                    lemma_to_set_push(before, id@);
                    assert(explicit_ids(now) =~= explicit_ids(before));
                }
            }
            i = i + 1;
        }
        assert(ids@.take(ids@.len() as int) =~= ids@);
        Ok(g)
    }

    /// The identifier of the next machine: `specified_id` if non-empty, else the
    /// first free generated one, which is taken from then on.
    pub fn generate(&mut self, specified_id: &str) -> (r: String)
        requires
            old(self).wf(),
            specified_id@.len() == 0 ==> old(self).count() < usize::MAX,
        ensures
            final(self).wf(),
            specified_id@.len() > 0 ==> r@ == specified_id@ && *final(self) == *old(self),
            specified_id@.len() == 0 ==> {
                let k = first_free(old(self).taken(), old(self).next());
                &&& is_first_free(old(self).taken(), old(self).next(), k)
                &&& !old(self).taken().contains(r@)
                &&& r@ == generated_id(k)
                &&& final(self).taken() == old(self).taken().insert(generated_id(k))
                &&& final(self).next() == k
                &&& final(self).count() == old(self).count() + 1
            },
    {
        if !specified_id.is_empty() {
            return string_from(specified_id);
        }
        let ghost start = self.next_id as nat;
        let mut k: usize = self.next_id;
        let mut id = string_from("machine-");
        push_decimal(&mut id, k as u64);
        while self.contains(id.as_str())
            invariant
                self.wf(),
                self.count() < usize::MAX,
                start <= k,
                start == self.next_id,
                id@ == generated_id(k as nat),
                forall|j: nat| start <= j < k ==> self.taken().contains(#[trigger] generated_id(j)),
                forall|j: nat| 1 <= j < k ==> self.taken().contains(#[trigger] generated_id(j)),
            decreases self.count() + 1 - k,
        {
            proof {
                lemma_ids_between(1, (k + 1) as nat);
                assert(ids_between(1, (k + 1) as nat).subset_of(self.taken())) by {
                    assert forall|x: Seq<char>| ids_between(1, (k + 1) as nat).contains(x) implies self.taken().contains(x) by {
                        let j = choose|j: nat| 1 <= j < k + 1 && x == generated_id(j);
                        if j < k {
                            assert(self.taken().contains(generated_id(j)));
                        }
                    }
                }
                views(self.id_set@).lemma_cardinality_of_set();
                lemma_len_subset(ids_between(1, (k + 1) as nat), self.taken());
            }
            k = k + 1;
            id = string_from("machine-");
            push_decimal(&mut id, k as u64);
        }
        proof {
            assert(is_first_free(self.taken(), start, k as nat));
            lemma_first_free_unique(self.taken(), start, k as nat);
        }
        let ghost old_set = self.id_set@;
        let ghost old_taken = self.taken();
        self.id_set.push(id.clone());
        self.next_id = k;
        proof {
            assert(views(self.id_set@) =~= views(old_set).push(id@));
            lemma_to_set_push(views(old_set), id@);
        }
        id
    }
}

proof fn lemma_to_set_push<A>(s: Seq<A>, x: A)
    ensures
        s.push(x).to_set() == s.to_set().insert(x),
{
    assert forall|y: A| s.push(x).to_set().contains(y) <==> s.to_set().insert(x).contains(y) by {
        if s.contains(y) {
            let j = choose|j: int| 0 <= j < s.len() && s[j] == y;
            assert(s.push(x)[j] == y);
        }
        if y == x {
            assert(s.push(x)[s.len() as int] == y);
        }
        if s.push(x).contains(y) && y != x {
            let j = choose|j: int| 0 <= j < s.push(x).len() && s.push(x)[j] == y;
            assert(s[j] == y);
        }
    }
    assert(s.push(x).to_set() =~= s.to_set().insert(x));
}

/// The first non-empty identifier of a list that repeats an earlier one stays
/// the first in any longer list.
proof fn lemma_first_duplicate_prefix(ids: Seq<Seq<char>>, n: int)
    requires
        0 <= n <= ids.len(),
        first_duplicate(ids.take(n)) is Some,
    ensures
        first_duplicate(ids) == first_duplicate(ids.take(n)),
    decreases ids.len() - n,
{
    if n < ids.len() {
        assert(ids.take(n + 1).drop_last() =~= ids.take(n));
        lemma_first_duplicate_prefix(ids, n + 1);
    } else {
        assert(ids.take(n) =~= ids);
    }
}

/// The identifiers the machines end up with: their own where given,
/// generated ones elsewhere.
pub open spec fn final_ids(ids: Seq<Seq<char>>) -> Seq<Seq<char>> {
    assigned_ids(ids, explicit_ids(ids), 1)
}

/// No two non-empty identifiers of the list are the same.
pub open spec fn explicit_distinct(ids: Seq<Seq<char>>) -> bool {
    forall|i: int, j: int| 0 <= i < j < ids.len() && ids[i].len() > 0 ==> ids[i] != ids[j]
}

proof fn lemma_no_duplicate_distinct(ids: Seq<Seq<char>>)
    requires
        first_duplicate(ids) is None,
    ensures
        explicit_distinct(ids),
    decreases ids.len(),
{
    if ids.len() > 0 {
        let p = ids.drop_last();
        lemma_no_duplicate_distinct(p);
        assert forall|i: int, j: int| 0 <= i < j < ids.len() && ids[i].len() > 0 implies ids[i]
            != ids[j] by {
            if j == ids.len() - 1 {
                if ids[i] == ids[j] {
                    assert(p[i] == ids.last());
                    assert(p.contains(ids.last()));
                }
            } else {
                assert(p[i] == ids[i] && p[j] == ids[j]);
            }
        }
    }
}

proof fn lemma_assigned_ids(ids: Seq<Seq<char>>, taken: Set<Seq<char>>, next: nat)
    requires
        taken.finite(),
        explicit_distinct(ids),
        forall|i: int| 0 <= i < ids.len() && ids[i].len() > 0 ==> taken.contains(ids[i]),
    ensures
        assigned_ids(ids, taken, next).len() == ids.len(),
        assigned_ids(ids, taken, next).no_duplicates(),
        forall|k: int|
            0 <= k < ids.len() ==> if ids[k].len() > 0 {
                assigned_ids(ids, taken, next)[k] == ids[k]
            } else {
                !taken.contains(#[trigger] assigned_ids(ids, taken, next)[k])
            },
    decreases ids.len(),
{
    if ids.len() > 0 {
        let rest = ids.drop_first();
        assert forall|i: int, j: int| 0 <= i < j < rest.len() && rest[i].len() > 0 implies rest[i]
            != rest[j] by {
            assert(rest[i] == ids[i + 1] && rest[j] == ids[j + 1]);
        }
        assert forall|i: int| 0 <= i < rest.len() && rest[i].len() > 0 implies taken.contains(
            rest[i],
        ) by {
            assert(rest[i] == ids[i + 1]);
        }
        let r = assigned_ids(ids, taken, next);
        if ids[0].len() > 0 {
            lemma_assigned_ids(rest, taken, next);
            let rr = assigned_ids(rest, taken, next);
            assert(r == seq![ids[0]] + rr);
            assert forall|m: int| 0 <= m < rr.len() implies rr[m] != ids[0] by {
                if rest[m].len() > 0 {
                    assert(rest[m] == ids[m + 1]);
                } else {
                    assert(!taken.contains(rr[m]));
                }
            }
            assert forall|i: int, j: int| 0 <= i < r.len() && 0 <= j < r.len() && i != j implies r[i]
                != r[j] by {
                if i > 0 && j > 0 {
                    assert(r[i] == rr[i - 1] && r[j] == rr[j - 1]);
                } else if i == 0 {
                    assert(r[j] == rr[j - 1]);
                } else {
                    assert(r[i] == rr[i - 1]);
                }
            }
            assert forall|k: int| 0 <= k < ids.len() implies if ids[k].len() > 0 {
                r[k] == ids[k]
            } else {
                !taken.contains(#[trigger] r[k])
            } by {
                if k > 0 {
                    assert(r[k] == rr[k - 1] && ids[k] == rest[k - 1]);
                }
            }
        } else {
            lemma_first_free_exists(taken, next);
            let k0 = first_free(taken, next);
            let g = generated_id(k0);
            let t2 = taken.insert(g);
            lemma_assigned_ids(rest, t2, k0);
            let rr = assigned_ids(rest, t2, k0);
            assert(r == seq![g] + rr);
            assert forall|m: int| 0 <= m < rr.len() implies rr[m] != g by {
                if rest[m].len() > 0 {
                    assert(rr[m] == rest[m]);
                    assert(taken.contains(rest[m]));
                } else {
                    assert(!t2.contains(rr[m]));
                }
            }
            assert forall|i: int, j: int| 0 <= i < r.len() && 0 <= j < r.len() && i != j implies r[i]
                != r[j] by {
                if i > 0 && j > 0 {
                    assert(r[i] == rr[i - 1] && r[j] == rr[j - 1]);
                } else if i == 0 {
                    assert(r[j] == rr[j - 1]);
                } else {
                    assert(r[i] == rr[i - 1]);
                }
            }
            assert forall|k: int| 0 <= k < ids.len() implies if ids[k].len() > 0 {
                r[k] == ids[k]
            } else {
                !taken.contains(#[trigger] r[k])
            } by {
                if k > 0 {
                    assert(r[k] == rr[k - 1] && ids[k] == rest[k - 1]);
                    if ids[k].len() == 0 {
                        assert(!t2.contains(rr[k - 1]));
                    }
                }
            }
        }
    }
}

/// Every machine ends up with an identifier of its own: where no explicit
/// identifier repeats, the final identifiers are pairwise distinct, the
/// explicit ones are kept, and each generated one differs from every explicit
/// one.
pub proof fn lemma_final_ids_distinct(ids: Seq<Seq<char>>)
    requires
        first_duplicate(ids) is None,
    ensures
        final_ids(ids).len() == ids.len(),
        final_ids(ids).no_duplicates(),
        forall|k: int| 0 <= k < ids.len() && ids[k].len() > 0 ==> final_ids(ids)[k] == ids[k],
        forall|k: int|
            0 <= k < ids.len() && ids[k].len() == 0 ==> !explicit_ids(ids).contains(
                #[trigger] final_ids(ids)[k],
            ),
{
    lemma_no_duplicate_distinct(ids);
    seq_to_set_is_finite(ids);
    ids.to_set().lemma_len_filter(|x: Seq<char>| x.len() > 0);
    assert forall|i: int| 0 <= i < ids.len() && ids[i].len() > 0 implies explicit_ids(ids).contains(
        ids[i],
    ) by {
        assert(ids.to_set().contains(ids[i]));
    }
    lemma_assigned_ids(ids, explicit_ids(ids), 1);
}

} // verus!
