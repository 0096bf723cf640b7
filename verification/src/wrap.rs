//! Greedy packing of mention tokens into bounded-length messages.

use vstd::prelude::*;

verus! {

/// The tokens of `ts` joined with the separator between neighbours.
pub open spec fn join_tokens(ts: Seq<Seq<char>>, sep: char) -> Seq<char>
    decreases ts.len(),
{
    if ts.len() == 0 {
        Seq::empty()
    } else if ts.len() == 1 {
        ts[0]
    } else {
        join_tokens(ts.drop_last(), sep) + seq![sep] + ts.last()
    }
}

/// Add one token to a greedy grouping: extend the last group when the joined
/// line still fits the limit, else open a new group.
pub open spec fn wrap_add(
    gs: Seq<Seq<Seq<char>>>,
    tok: Seq<char>,
    limit: int,
    sep: char,
) -> Seq<Seq<Seq<char>>> {
    if gs.len() == 0 {
        seq![seq![tok]]
    } else {
        let last = gs.last();
        if join_tokens(last, sep).len() + 1 + tok.len() <= limit {
            gs.drop_last().push(last.push(tok))
        } else {
            gs.push(seq![tok])
        }
    }
}

/// The greedy grouping of the tokens, left to right.
pub open spec fn wrap_groups(ts: Seq<Seq<char>>, limit: int, sep: char) -> Seq<Seq<Seq<char>>>
    decreases ts.len(),
{
    if ts.len() == 0 {
        Seq::empty()
    } else {
        wrap_add(wrap_groups(ts.drop_last(), limit, sep), ts.last(), limit, sep)
    }
}

/// Each group joined into one message.
pub open spec fn join_all(gs: Seq<Seq<Seq<char>>>, sep: char) -> Seq<Seq<char>>
    decreases gs.len(),
{
    if gs.len() == 0 {
        Seq::empty()
    } else {
        join_all(gs.drop_last(), sep).push(join_tokens(gs.last(), sep))
    }
}

/// The groups flattened back into one run of tokens.
pub open spec fn flatten_groups(gs: Seq<Seq<Seq<char>>>) -> Seq<Seq<char>>
    decreases gs.len(),
{
    if gs.len() == 0 {
        Seq::empty()
    } else {
        flatten_groups(gs.drop_last()) + gs.last()
    }
}

/// Whether some token exceeds the limit on its own.
pub open spec fn any_oversize(ts: Seq<Seq<char>>, limit: int) -> bool {
    exists|i: int| 0 <= i < ts.len() && (#[trigger] ts[i]).len() > limit
}

/// The messages the greedy packing produces.
pub open spec fn wrap_spec(ts: Seq<Seq<char>>, limit: int, sep: char) -> Seq<Seq<char>> {
    join_all(wrap_groups(ts, limit, sep), sep)
}

/// A token is never longer than a join it takes part in.
pub proof fn lemma_join_token_bound(ts: Seq<Seq<char>>, sep: char)
    ensures
        forall|i: int| 0 <= i < ts.len() ==> (#[trigger] ts[i]).len() <= join_tokens(ts, sep).len(),
        ts.len() >= 1 ==> join_tokens(ts, sep).len() >= ts.len() - 1,
    decreases ts.len(),
{
    if ts.len() > 1 {
        lemma_join_token_bound(ts.drop_last(), sep);
        assert forall|i: int| 0 <= i < ts.len() implies (#[trigger] ts[i]).len() <= join_tokens(
            ts,
            sep,
        ).len() by {
            if i < ts.len() - 1 {
                assert(ts.drop_last()[i] == ts[i]);
            }
        }
    }
}

/// Soundness of the greedy grouping: groups are nonempty, every joined line
/// fits the limit, and flattening the groups restores the tokens.
pub proof fn lemma_wrap_groups_sound(ts: Seq<Seq<char>>, limit: int, sep: char)
    requires
        !any_oversize(ts, limit),
    ensures
        forall|i: int|
            0 <= i < wrap_groups(ts, limit, sep).len() ==> (#[trigger] wrap_groups(ts, limit, sep)[i]).len() >= 1
                && join_tokens(wrap_groups(ts, limit, sep)[i], sep).len() <= limit,
        flatten_groups(wrap_groups(ts, limit, sep)) == ts,
    decreases ts.len(),
{
    if ts.len() == 0 {
        assert(flatten_groups(wrap_groups(ts, limit, sep)) =~= ts);
    } else {
        assert forall|i: int| 0 <= i < ts.drop_last().len() implies !((
        #[trigger] ts.drop_last()[i]).len() > limit) by {
            assert(ts.drop_last()[i] == ts[i]);
        }
        lemma_wrap_groups_sound(ts.drop_last(), limit, sep);
        let gs = wrap_groups(ts.drop_last(), limit, sep);
        let tok = ts.last();
        assert(tok.len() <= limit);
        let out = wrap_groups(ts, limit, sep);
        assert(out == wrap_add(gs, tok, limit, sep));
        if gs.len() == 0 {
            assert(out == seq![seq![tok]]);
            assert(join_tokens(seq![tok], sep) == tok);
            assert(flatten_groups(gs) == ts.drop_last());
            assert(ts.drop_last().len() == 0);
            assert(out.drop_last() =~= Seq::<Seq<Seq<char>>>::empty());
            assert(flatten_groups(out.drop_last()) =~= Seq::<Seq<char>>::empty());
            assert(flatten_groups(out) == flatten_groups(out.drop_last()) + out.last());
            assert(flatten_groups(out) =~= ts);
        } else {
            let last = gs.last();
            if join_tokens(last, sep).len() + 1 + tok.len() <= limit {
                let newlast = last.push(tok);
                assert(out == gs.drop_last().push(newlast));
                assert(newlast.drop_last() =~= last);
                assert(newlast.len() >= 2);
                assert(join_tokens(newlast, sep) == join_tokens(last, sep) + seq![sep] + tok);
                assert forall|i: int| 0 <= i < out.len() implies (#[trigger] out[i]).len() >= 1
                    && join_tokens(out[i], sep).len() <= limit by {
                    if i < out.len() - 1 {
                        assert(out[i] == gs[i]);
                    } else {
                        assert(out[i] == newlast);
                    }
                }
                assert(out.drop_last() =~= gs.drop_last());
                assert(out.last() == newlast);
                assert(flatten_groups(out) == flatten_groups(gs.drop_last()) + newlast);
                assert(flatten_groups(gs) == flatten_groups(gs.drop_last()) + last);
                assert(flatten_groups(out) =~= flatten_groups(gs) + seq![tok]);
                assert(flatten_groups(out) =~= ts);
            } else {
                assert(out == gs.push(seq![tok]));
                assert(out.drop_last() =~= gs);
                assert(out.last() == seq![tok]);
                assert(join_tokens(seq![tok], sep) == tok);
                assert(flatten_groups(out) == flatten_groups(out.drop_last()) + out.last());
                assert forall|i: int| 0 <= i < out.len() implies (#[trigger] out[i]).len() >= 1
                    && join_tokens(out[i], sep).len() <= limit by {
                    if i < out.len() - 1 {
                        assert(out[i] == gs[i]);
                    }
                }
                assert(flatten_groups(out) == flatten_groups(gs) + seq![tok]);
                assert(flatten_groups(out) =~= ts);
            }
        }
    }
}

/// The packing makes as many messages as groups.
pub proof fn lemma_join_all_len(gs: Seq<Seq<Seq<char>>>, sep: char)
    ensures
        join_all(gs, sep).len() == gs.len(),
        forall|i: int|
            0 <= i < gs.len() ==> #[trigger] join_all(gs, sep)[i] == join_tokens(gs[i], sep),
    decreases gs.len(),
{
    if gs.len() > 0 {
        lemma_join_all_len(gs.drop_last(), sep);
        assert forall|i: int| 0 <= i < gs.len() implies #[trigger] join_all(gs, sep)[i]
            == join_tokens(gs[i], sep) by {
            if i < gs.len() - 1 {
                assert(gs.drop_last()[i] == gs[i]);
                assert(join_all(gs, sep)[i] == join_all(gs.drop_last(), sep)[i]);
            }
        }
    }
}

/// Join the tokens with the separator into one line.
pub fn join_line(ts: &Vec<Vec<char>>, sep: char) -> (r: Vec<char>)
    ensures
        r@ == join_tokens(ts.deep_view(), sep),
{
    let ghost tsv = ts.deep_view();
    proof {
        assert(tsv.len() == ts@.len());
        assert(forall|i: int| 0 <= i < ts@.len() ==> tsv[i] == #[trigger] ts@[i]@);
    }
    let mut r: Vec<char> = Vec::new();
    let mut i: usize = 0;
    while i < ts.len()
        invariant
            0 <= i <= ts@.len(),
            tsv == ts.deep_view(),
            tsv.len() == ts@.len(),
            forall|k: int| 0 <= k < ts@.len() ==> tsv[k] == #[trigger] ts@[k]@,
            r@ == join_tokens(tsv.take(i as int), sep),
        decreases ts@.len() - i,
    {
        let ghost taken = tsv.take(i as int + 1);
        proof {
            assert(taken.drop_last() =~= tsv.take(i as int));
            assert(taken.last() == tsv[i as int]);
        }
        if i > 0 {
            r.push(sep);
        }
        let mut t = crate::chars::copy_chars(ts[i].as_slice());
        r.append(&mut t);
        proof {
            if i == 0 {
                assert(taken.len() == 1);
                assert(join_tokens(taken, sep) == taken[0]);
                assert(r@ =~= join_tokens(taken, sep));
            } else {
                assert(taken.len() >= 2);
                assert(join_tokens(taken, sep) == join_tokens(taken.drop_last(), sep) + seq![sep]
                    + taken.last());
                assert(r@ =~= join_tokens(taken, sep));
            }
        }
        i += 1;
    }
    proof {
        assert(tsv.take(tsv.len() as int) == tsv);
    }
    r
}

/// Pack the tokens into messages no longer than `limit`, greedily, joining
/// with `sep`. `None` when a single token exceeds the limit on its own.
pub fn wrap_string_vec(ts: &Vec<Vec<char>>, sep: char, limit: usize) -> (r: Option<Vec<Vec<char>>>)
    ensures
        match r {
            Some(msgs) => {
                &&& !any_oversize(ts.deep_view(), limit as int)
                &&& msgs.deep_view() == wrap_spec(ts.deep_view(), limit as int, sep)
                &&& msgs@.len() == wrap_groups(ts.deep_view(), limit as int, sep).len()
                &&& forall|i: int|
                    0 <= i < msgs@.len() ==> (#[trigger] msgs.deep_view()[i]).len()
                        <= limit as int
            },
            None => any_oversize(ts.deep_view(), limit as int),
        },
{
    let ghost tsv = ts.deep_view();
    proof {
        assert(tsv.len() == ts@.len());
        assert(forall|i: int| 0 <= i < ts@.len() ==> tsv[i] == #[trigger] ts@[i]@);
    }
    let mut i: usize = 0;
    while i < ts.len()
        invariant
            0 <= i <= ts@.len(),
            tsv == ts.deep_view(),
            tsv.len() == ts@.len(),
            forall|k: int| 0 <= k < ts@.len() ==> tsv[k] == #[trigger] ts@[k]@,
            forall|k: int| 0 <= k < i ==> (#[trigger] tsv[k]).len() <= limit,
        decreases ts@.len() - i,
    {
        if ts[i].len() > limit {
            proof {
                assert(tsv[i as int].len() > limit);
            }
            return None;
        }
        i += 1;
    }
    let mut msgs: Vec<Vec<char>> = Vec::new();
    let mut cur: Vec<char> = Vec::new();
    let mut started: bool = false;
    let mut j: usize = 0;
    while j < ts.len()
        invariant
            0 <= j <= ts@.len(),
            tsv == ts.deep_view(),
            tsv.len() == ts@.len(),
            forall|k: int| 0 <= k < ts@.len() ==> tsv[k] == #[trigger] ts@[k]@,
            forall|k: int| 0 <= k < ts@.len() ==> (#[trigger] tsv[k]).len() <= limit,
            started == (wrap_groups(tsv.take(j as int), limit as int, sep).len() > 0),
            started ==> {
                let gs = wrap_groups(tsv.take(j as int), limit as int, sep);
                msgs.deep_view() == join_all(gs.drop_last(), sep) && cur@ == join_tokens(
                    gs.last(),
                    sep,
                ) && cur@.len() <= limit
            },
            !started ==> msgs@.len() == 0 && cur@.len() == 0 && j == 0,
        decreases ts@.len() - j,
    {
        let ghost gs = wrap_groups(tsv.take(j as int), limit as int, sep);
        let ghost taken = tsv.take(j as int + 1);
        proof {
            assert(taken.drop_last() =~= tsv.take(j as int));
            assert(taken.last() == tsv[j as int]);
            assert(wrap_groups(taken, limit as int, sep) == wrap_add(
                gs,
                tsv[j as int],
                limit as int,
                sep,
            ));
        }
        let tok = &ts[j];
        if !started {
            cur = crate::chars::copy_chars(tok.as_slice());
            started = true;
            proof {
                let gs2 = wrap_groups(taken, limit as int, sep);
                assert(gs2 == seq![seq![tsv[j as int]]]);
                assert(gs2.drop_last() =~= Seq::<Seq<Seq<char>>>::empty());
                assert(msgs.deep_view() =~= join_all(gs2.drop_last(), sep));
                assert(join_tokens(seq![tsv[j as int]], sep) == tsv[j as int]);
            }
        } else {
            let space = limit - cur.len();
            if space >= 1 && tok.len() <= space - 1 {
                cur.push(sep);
                let mut t = crate::chars::copy_chars(tok.as_slice());
                cur.append(&mut t);
                proof {
                    let gs2 = wrap_groups(taken, limit as int, sep);
                    let newlast = gs.last().push(tsv[j as int]);
                    assert(gs2 == gs.drop_last().push(newlast));
                    assert(newlast.drop_last() =~= gs.last());
                    assert(newlast.len() >= 1);
                    if gs.last().len() == 0 {
                        assert(join_tokens(gs.last(), sep).len() == 0);
                    }
                    assert(gs.last().len() >= 1 ==> join_tokens(newlast, sep) == join_tokens(
                        gs.last(),
                        sep,
                    ) + seq![sep] + tsv[j as int]);
                    assert(gs2.drop_last() =~= gs.drop_last());
                    assert(cur@ =~= join_tokens(newlast, sep));
                }
            } else {
                msgs.push(cur);
                cur = crate::chars::copy_chars(tok.as_slice());
                proof {
                    let gs2 = wrap_groups(taken, limit as int, sep);
                    assert(gs2 == gs.push(seq![tsv[j as int]]));
                    assert(gs2.drop_last() =~= gs);
                    assert(join_all(gs, sep) == join_all(gs.drop_last(), sep).push(join_tokens(
                        gs.last(),
                        sep,
                    )));
                    assert(msgs.deep_view() =~~= join_all(gs, sep));
                    assert(join_tokens(seq![tsv[j as int]], sep) == tsv[j as int]);
                }
            }
        }
        j += 1;
    }
    proof {
        assert(tsv.take(tsv.len() as int) == tsv);
    }
    if started {
        msgs.push(cur);
        proof {
            let gs = wrap_groups(tsv, limit as int, sep);
            assert(join_all(gs, sep) == join_all(gs.drop_last(), sep).push(join_tokens(
                gs.last(),
                sep,
            )));
            assert(msgs.deep_view() =~~= join_all(gs, sep));
        }
    } else {
        proof {
            assert(wrap_groups(tsv, limit as int, sep).len() == 0);
            assert(msgs.deep_view() =~~= join_all(
                wrap_groups(tsv, limit as int, sep),
                sep,
            ));
        }
    }
    proof {
        let gs = wrap_groups(tsv, limit as int, sep);
        lemma_wrap_groups_sound(tsv, limit as int, sep);
        lemma_join_all_len(gs, sep);
        assert(msgs.deep_view().len() == msgs@.len());
    }
    Some(msgs)
}

} // verus!
