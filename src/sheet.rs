use vstd::prelude::*;

verus! {

/// One command of an environment: its trigger and what it does.
#[derive(Clone, Debug)]
pub struct Input {
    pub input: String,
    pub description: String,
}

/// A named group of commands; `**` in a trigger stands for `prefix`.
#[derive(Clone, Debug)]
pub struct Environment {
    pub environment: String,
    pub prefix: String,
    pub inputs: Vec<Input>,
}

/// The whole sheet, environments in the order they were written.
#[derive(Clone, Debug)]
pub struct CheatSheet {
    pub environments: Vec<Environment>,
}

pub open spec fn weight(e: Environment) -> nat {
    e.inputs@.len()
}

/// No environment has more inputs than one before it.
pub open spec fn is_layout_ordered(s: Seq<Environment>) -> bool {
    forall|i: int, j: int| 0 <= i < j < s.len() ==> weight(#[trigger] s[i]) >= weight(#[trigger] s[j])
}

/// The environments of `s` that hold exactly `k` inputs, in their order in `s`.
pub open spec fn with_weight(s: Seq<Environment>, k: nat) -> Seq<Environment> {
    s.filter(|e: Environment| weight(e) == k)
}

/// Places `e` before the first environment of `t` that has no more inputs than it.
pub open spec fn insert_ordered(e: Environment, t: Seq<Environment>) -> Seq<Environment>
    decreases t.len(),
{
    if t.len() == 0 || weight(e) >= weight(t[0]) {
        seq![e] + t
    } else {
        seq![t[0]] + insert_ordered(e, t.drop_first())
    }
}

/// The stable sort by descending number of inputs.
pub open spec fn layout_order(s: Seq<Environment>) -> Seq<Environment>
    decreases s.len(),
{
    if s.len() == 0 {
        s
    } else {
        insert_ordered(s[0], layout_order(s.drop_first()))
    }
}

proof fn lemma_insert_ordered_sorted(e: Environment, t: Seq<Environment>)
    requires
        is_layout_ordered(t),
    ensures
        is_layout_ordered(insert_ordered(e, t)),
        insert_ordered(e, t).len() == t.len() + 1,
        insert_ordered(e, t).len() > 0 && (insert_ordered(e, t)[0] == e || (t.len() > 0
            && insert_ordered(e, t)[0] == t[0])),
    decreases t.len(),
{
    if t.len() == 0 || weight(e) >= weight(t[0]) {
    } else {
        let r = insert_ordered(e, t.drop_first());
        lemma_insert_ordered_sorted(e, t.drop_first());
        assert(forall|j: int| 0 <= j < r.len() ==> weight(#[trigger] r[j]) <= weight(t[0])) by {
            assert forall|j: int| 0 <= j < r.len() implies weight(#[trigger] r[j]) <= weight(
                t[0],
            ) by {
                if j > 0 || r[0] != e {
                    assert(r[0] == e || r[0] == t[1]);
                    if j == 0 {
                        assert(weight(t[0]) >= weight(t[1]));
                    } else {
                        assert(weight(r[0]) >= weight(r[j]));
                        if r[0] == t[1] {
                            assert(weight(t[0]) >= weight(t[1]));
                        }
                    }
                }
            }
        }
        let full = insert_ordered(e, t);
        assert(full =~= seq![t[0]] + r);
        assert forall|i: int, j: int| 0 <= i < j < full.len() implies weight(
            #[trigger] full[i],
        ) >= weight(#[trigger] full[j]) by {
            if i == 0 {
                assert(full[j] == r[j - 1]);
            } else {
                assert(full[i] == r[i - 1] && full[j] == r[j - 1]);
            }
        }
    }
}

proof fn lemma_insert_ordered_weights(e: Environment, t: Seq<Environment>, k: nat)
    ensures
        with_weight(insert_ordered(e, t), k) == with_weight(seq![e] + t, k),
    decreases t.len(),
{
    broadcast use vstd::seq_lib::group_filter_ensures;

    let f = |x: Environment| weight(x) == k;
    if t.len() == 0 || weight(e) >= weight(t[0]) {
    } else {
        let rest = t.drop_first();
        lemma_insert_ordered_weights(e, rest, k);
        assert(t =~= seq![t[0]] + rest);
        assert(insert_ordered(e, t) == seq![t[0]] + insert_ordered(e, rest));
        rest.lemma_filter_prepend(e, f);
        insert_ordered(e, rest).lemma_filter_prepend(t[0], f);
        rest.lemma_filter_prepend(t[0], f);
        t.lemma_filter_prepend(e, f);
        (seq![e] + rest).lemma_filter_prepend(t[0], f);
        // t[0] is heavier than e, so at most one of them is kept
        assert(seq![e] + t =~= seq![e] + (seq![t[0]] + rest));
        assert(seq![t[0]] + (seq![e] + rest) =~= seq![t[0]] + (seq![e] + rest));
        if f(e) {
            assert(!f(t[0]));
            assert(with_weight(insert_ordered(e, t), k) =~= with_weight(seq![e] + t, k));
        } else if f(t[0]) {
            assert(with_weight(insert_ordered(e, t), k) =~= with_weight(seq![e] + t, k));
        } else {
            assert(with_weight(insert_ordered(e, t), k) =~= with_weight(seq![e] + t, k));
        }
    }
}

pub proof fn lemma_layout_order_sorted(s: Seq<Environment>)
    ensures
        is_layout_ordered(layout_order(s)),
        layout_order(s).len() == s.len(),
    decreases s.len(),
{
    if s.len() > 0 {
        lemma_layout_order_sorted(s.drop_first());
        lemma_insert_ordered_sorted(s[0], layout_order(s.drop_first()));
    }
}

/// Sorting keeps, for every number of inputs, the environments with that
/// number in their original relative order.
pub proof fn lemma_layout_order_stable(s: Seq<Environment>, k: nat)
    ensures
        with_weight(layout_order(s), k) == with_weight(s, k),
    decreases s.len(),
{
    let f = |x: Environment| weight(x) == k;
    if s.len() > 0 {
        let rest = s.drop_first();
        lemma_layout_order_stable(rest, k);
        lemma_insert_ordered_weights(s[0], layout_order(rest), k);
        layout_order(rest).lemma_filter_prepend(s[0], f);
        rest.lemma_filter_prepend(s[0], f);
        assert(s =~= seq![s[0]] + rest);
    }
}

/// A sequence that is already in layout order is left as it is.
pub proof fn lemma_layout_order_keeps_ordered(s: Seq<Environment>)
    requires
        is_layout_ordered(s),
    ensures
        layout_order(s) == s,
    decreases s.len(),
{
    if s.len() > 0 {
        let rest = s.drop_first();
        assert(is_layout_ordered(rest)) by {
            assert forall|i: int, j: int| 0 <= i < j < rest.len() implies weight(
                #[trigger] rest[i],
            ) >= weight(#[trigger] rest[j]) by {
                assert(rest[i] == s[i + 1] && rest[j] == s[j + 1]);
            }
        }
        lemma_layout_order_keeps_ordered(rest);
        if rest.len() > 0 {
            assert(weight(s[0]) >= weight(s[1]));
        }
        assert(seq![s[0]] + rest =~= s);
    }
}

/// Sorting for layout twice gives what sorting once gives.
pub proof fn lemma_layout_order_idempotent(s: Seq<Environment>)
    ensures
        layout_order(layout_order(s)) == layout_order(s),
{
    lemma_layout_order_sorted(s);
    lemma_layout_order_keeps_ordered(layout_order(s));
}

impl CheatSheet {
    /// The sheet with its environments stably sorted by descending number of inputs.
    pub fn ordered_for_layout(self) -> (r: CheatSheet)
        ensures
            r.environments@ == layout_order(self.environments@),
            is_layout_ordered(r.environments@),
            forall|k: nat| with_weight(r.environments@, k) == with_weight(self.environments@, k),
    {
        let ghost s = self.environments@;
        let mut rest = self.environments;
        let mut out: Vec<Environment> = Vec::new();
        proof {
            lemma_layout_order_sorted(s);
            assert(s.subrange(s.len() as int, s.len() as int) =~= Seq::<Environment>::empty());
        }
        while rest.len() > 0
            invariant
                rest@ == s.subrange(0, rest@.len() as int),
                rest@.len() <= s.len(),
                out@ == layout_order(s.subrange(rest@.len() as int, s.len() as int)),
                is_layout_ordered(out@),
            decreases rest@.len(),
        {
            let e = rest.pop().unwrap();
            let ghost i = rest@.len() as int;
            proof {
                let tail = s.subrange(i, s.len() as int);
                assert(tail.drop_first() =~= s.subrange(i + 1, s.len() as int));
                assert(tail[0] == e);
                assert(rest@ =~= s.subrange(0, i));
                lemma_insert_ordered_sorted(e, out@);
            }
            let mut p: usize = 0;
            while p < out.len() && out[p].inputs.len() > e.inputs.len()
                invariant
                    p <= out@.len(),
                    forall|j: int| 0 <= j < p ==> weight(#[trigger] out@[j]) > weight(e),
                decreases out@.len() - p,
            {
                p = p + 1;
            }
            proof {
                lemma_insert_at(e, out@, p as int);
            }
            out.insert(p, e);
        }
        proof {
            assert(s.subrange(0, s.len() as int) =~= s);
            assert forall|k: nat| with_weight(out@, k) == with_weight(s, k) by {
                lemma_layout_order_stable(s, k);
            }
        }
        CheatSheet { environments: out }
    }
}

proof fn lemma_insert_at(e: Environment, t: Seq<Environment>, p: int)
    requires
        0 <= p <= t.len(),
        forall|j: int| 0 <= j < p ==> weight(#[trigger] t[j]) > weight(e),
        p == t.len() || weight(t[p]) <= weight(e),
    ensures
        insert_ordered(e, t) == t.insert(p, e),
    decreases p,
{
    if p == 0 {
        assert(seq![e] + t =~= t.insert(0, e));
    } else {
        let rest = t.drop_first();
        assert forall|j: int| 0 <= j < p - 1 implies weight(#[trigger] rest[j]) > weight(e) by {
            assert(rest[j] == t[j + 1]);
        }
        if p < t.len() {
            assert(rest[p - 1] == t[p]);
        }
        lemma_insert_at(e, rest, p - 1);
        assert(weight(t[0]) > weight(e));
        assert(seq![t[0]] + rest.insert(p - 1, e) =~= t.insert(p, e));
    }
}

} // verus!
