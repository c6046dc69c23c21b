//! Choosing the peers that a tick sends to.
//!
//! Peers are chosen by position. Those that the previous tick did not send to
//! are "fresh" and come first; the others are "used" and fill up what the
//! fresh ones leave open. Within a pool, a cursor plus one random draw per
//! pick says which of the remaining positions is taken.

use vstd::prelude::*;

use crate::addr::PeerAddr;

verus! {

/// The positions in `peers` whose address is in `last` (when `used`) or is not
/// in `last` (otherwise), in ascending order.
pub open spec fn positions(peers: Seq<PeerAddr>, last: Seq<PeerAddr>, used: bool) -> Seq<int>
    decreases peers.len(),
{
    if peers.len() == 0 {
        Seq::empty()
    } else {
        let before = positions(peers.drop_last(), last, used);
        if last.contains(peers.last()) == used {
            before.push(peers.len() - 1)
        } else {
            before
        }
    }
}

/// Which of `remaining` candidates a pick takes, given the cursor and a draw.
pub open spec fn pick_index(cursor: usize, draw: usize, remaining: nat) -> int {
    cursor.wrapping_add(draw) as int % remaining as int
}

/// The positions that are picked, in order, with one pick per draw: out of
/// `fresh` while it lasts, then out of `used`. A picked position leaves its
/// pool, and the cursor moves on by one.
pub open spec fn picked(
    fresh: Seq<int>,
    used: Seq<int>,
    cursor: usize,
    draws: Seq<usize>,
) -> Seq<int>
    decreases draws.len(),
{
    if draws.len() == 0 {
        Seq::empty()
    } else if fresh.len() > 0 {
        let i = pick_index(cursor, draws[0], fresh.len());
        seq![fresh[i]] + picked(fresh.remove(i), used, cursor.wrapping_add(1), draws.drop_first())
    } else if used.len() > 0 {
        let i = pick_index(cursor, draws[0], used.len());
        seq![used[i]] + picked(fresh, used.remove(i), cursor.wrapping_add(1), draws.drop_first())
    } else {
        Seq::empty()
    }
}

/// The positions in `peers` that a tick sends to, when `last` are the peers of
/// the previous tick.
pub open spec fn chosen_positions(
    peers: Seq<PeerAddr>,
    last: Seq<PeerAddr>,
    cursor: usize,
    draws: Seq<usize>,
) -> Seq<int> {
    picked(positions(peers, last, false), positions(peers, last, true), cursor, draws)
}

/// The addresses at the given positions.
pub open spec fn addresses_at(peers: Seq<PeerAddr>, at: Seq<int>) -> Seq<PeerAddr> {
    Seq::new(at.len(), |i: int| peers[at[i]])
}

/// The values of a sequence of machine integers.
pub open spec fn values(s: Seq<usize>) -> Seq<int> {
    Seq::new(s.len(), |i: int| s[i] as int)
}

/// Whether `list` holds `addr`.
fn holds(list: &Vec<PeerAddr>, addr: &PeerAddr) -> (found: bool)
    ensures
        found == list@.contains(*addr),
{
    let mut i: usize = 0;
    while i < list.len()
        invariant
            i <= list.len(),
            forall|j: int| 0 <= j < i ==> list@[j] != *addr,
        decreases list.len() - i,
    {
        if list[i] == *addr {
            return true;
        }
        i += 1;
    }
    false
}

/// Splits the positions of `peers` into those that are fresh and those that
/// are used, given the peers of the previous tick.
pub(crate) fn split_pools(peers: &[PeerAddr], last: &Vec<PeerAddr>) -> (pools: (Vec<usize>, Vec<usize>))
    ensures
        values(pools.0@) == positions(peers@, last@, false),
        values(pools.1@) == positions(peers@, last@, true),
{
    let mut fresh: Vec<usize> = Vec::new();
    let mut used: Vec<usize> = Vec::new();
    let mut i: usize = 0;
    assert(peers@.take(0) =~= Seq::<PeerAddr>::empty());
    while i < peers.len()
        invariant
            i <= peers.len(),
            values(fresh@) == positions(peers@.take(i as int), last@, false),
            values(used@) == positions(peers@.take(i as int), last@, true),
        decreases peers.len() - i,
    {
        proof {
            let next = peers@.take(i + 1);
            assert(next.drop_last() =~= peers@.take(i as int));
            assert(next.last() == peers@[i as int]);
            assert(values(fresh@.push(i)) =~= values(fresh@).push(i as int));
            assert(values(used@.push(i)) =~= values(used@).push(i as int));
        }
        if holds(last, &peers[i]) {
            used.push(i);
        } else {
            fresh.push(i);
        }
        i += 1;
    }
    assert(peers@.take(i as int) =~= peers@);
    (fresh, used)
}

/// Picks one position per draw out of the two pools, fresh ones first, and
/// stops early only when both pools are empty.
pub(crate) fn pick_positions(
    fresh: Vec<usize>,
    used: Vec<usize>,
    cursor: usize,
    draws: &[usize],
) -> (result: (Vec<usize>, usize))
    ensures
        values(result.0@) == picked(values(fresh@), values(used@), cursor, draws@),
        result.1 == cursor.wrapping_add(result.0@.len() as usize),
{
    let mut fresh: Vec<usize> = fresh;
    let mut used: Vec<usize> = used;
    let mut now: usize = cursor;
    let mut chosen: Vec<usize> = Vec::new();
    let ghost whole = picked(values(fresh@), values(used@), cursor, draws@);
    assert(draws@.skip(0) =~= draws@);
    assert(values(chosen@) + whole =~= whole);
    let mut k: usize = 0;
    while k < draws.len() && !(fresh.is_empty() && used.is_empty())
        invariant
            k <= draws.len(),
            chosen@.len() == k,
            now == cursor.wrapping_add(k),
            whole == values(chosen@) + picked(
                values(fresh@),
                values(used@),
                now,
                draws@.skip(k as int),
            ),
        decreases draws.len() - k,
    {
        let ghost rest = draws@.skip(k as int);
        let ghost (fresh0, used0, chosen0) = (values(fresh@), values(used@), values(chosen@));
        let ghost tail = picked(fresh0, used0, now, rest);
        assert(rest[0] == draws@[k as int]);
        assert(rest.drop_first() =~= draws@.skip(k + 1));
        let from_fresh = !fresh.is_empty();
        let remaining: usize = if from_fresh { fresh.len() } else { used.len() };
        let pick: usize = now.wrapping_add(draws[k]) % remaining;
        let position: usize = if from_fresh { fresh.remove(pick) } else { used.remove(pick) };
        chosen.push(position);
        now = now.wrapping_add(1);
        proof {
            if from_fresh {
                assert(values(fresh@) =~= fresh0.remove(pick as int));
            } else {
                assert(values(used@) =~= used0.remove(pick as int));
            }
            let next = picked(values(fresh@), values(used@), now, rest.drop_first());
            assert(tail == seq![position as int] + next);
            assert(values(chosen@) =~= chosen0 + seq![position as int]);
            assert(chosen0 + tail =~= values(chosen@) + next);
        }
        k += 1;
    }
    assert(values(chosen@) + Seq::<int>::empty() =~= values(chosen@));
    (chosen, now)
}

/// The positions of a pool are in range, ascending, and exactly those whose
/// address is (or is not) among the peers of the previous tick.
proof fn lemma_positions(peers: Seq<PeerAddr>, last: Seq<PeerAddr>, used: bool)
    ensures
        forall|i: int|
            0 <= i < positions(peers, last, used).len() ==> 0 <= #[trigger] positions(
                peers,
                last,
                used,
            )[i] < peers.len() && last.contains(peers[positions(peers, last, used)[i]]) == used,
        forall|i: int, j: int|
            0 <= i < j < positions(peers, last, used).len() ==> #[trigger] positions(
                peers,
                last,
                used,
            )[i] < #[trigger] positions(peers, last, used)[j],
        forall|p: int|
            0 <= p < peers.len() && last.contains(#[trigger] peers[p]) == used ==> positions(
                peers,
                last,
                used,
            ).contains(p),
        positions(peers, last, used).len() + positions(peers, last, !used).len() == peers.len(),
    decreases peers.len(),
{
    if peers.len() > 0 {
        let shorter = peers.drop_last();
        let before = positions(shorter, last, used);
        let all = positions(peers, last, used);
        lemma_positions(shorter, last, used);
        assert(all =~= if last.contains(peers.last()) == used {
            before.push(peers.len() - 1)
        } else {
            before
        });
        assert forall|i: int| 0 <= i < all.len() implies 0 <= #[trigger] all[i] < peers.len()
            && last.contains(peers[all[i]]) == used by {
            if i < before.len() {
                assert(all[i] == before[i]);
                assert(shorter[before[i]] == peers[before[i]]);
            }
        }
        assert forall|i: int, j: int| 0 <= i < j < all.len() implies #[trigger] all[i]
            < #[trigger] all[j] by {
            assert(all[i] == before[i]);
            if j < before.len() {
                assert(all[j] == before[j]);
            }
        }
        assert forall|p: int|
            0 <= p < peers.len() && last.contains(#[trigger] peers[p]) == used implies all.contains(
            p,
        ) by {
            if p < peers.len() - 1 {
                assert(shorter[p] == peers[p]);
                let i = before.index_of(p);
                assert(before[i] == p);
                assert(all[i] == p);
            } else {
                assert(all[all.len() - 1] == p);
            }
        }
    }
}

/// What holds of the picks out of two pools that share no position and list
/// none twice.
proof fn lemma_picked(fresh: Seq<int>, used: Seq<int>, cursor: usize, draws: Seq<usize>)
    requires
        fresh.no_duplicates(),
        used.no_duplicates(),
        forall|x: int| fresh.contains(x) ==> !used.contains(x),
    ensures
        picked(fresh, used, cursor, draws).len() == if draws.len() <= fresh.len() + used.len() {
            draws.len()
        } else {
            fresh.len() + used.len()
        },
        picked(fresh, used, cursor, draws).no_duplicates(),
        forall|k: int|
            0 <= k < picked(fresh, used, cursor, draws).len() ==> if k < fresh.len() {
                fresh.contains(#[trigger] picked(fresh, used, cursor, draws)[k])
            } else {
                used.contains(picked(fresh, used, cursor, draws)[k])
            },
        draws.len() >= fresh.len() ==> forall|x: int|
            fresh.contains(x) ==> picked(fresh, used, cursor, draws).contains(x),
        draws.len() >= fresh.len() + used.len() ==> forall|x: int|
            used.contains(x) ==> picked(fresh, used, cursor, draws).contains(x),
    decreases draws.len(),
{
    let all = picked(fresh, used, cursor, draws);
    if draws.len() > 0 && fresh.len() + used.len() > 0 {
        let from_fresh = fresh.len() > 0;
        let pool = if from_fresh { fresh } else { used };
        let i = pick_index(cursor, draws[0], pool.len());
        let taken = pool[i];
        let left = pool.remove(i);
        let (fresh1, used1) = if from_fresh { (left, used) } else { (fresh, left) };
        let rest = picked(fresh1, used1, cursor.wrapping_add(1), draws.drop_first());
        assert(0 <= i < pool.len());
        assert(all == seq![taken] + rest);
        lemma_removed(pool, i);
        lemma_picked(fresh1, used1, cursor.wrapping_add(1), draws.drop_first());
        assert forall|k: int| 0 <= k < all.len() implies if k < fresh.len() {
            fresh.contains(#[trigger] all[k])
        } else {
            used.contains(all[k])
        } by {
            if k > 0 {
                assert(all[k] == rest[k - 1]);
            } else {
                assert(pool.contains(taken));
            }
        }
        assert(!rest.contains(taken)) by {
            if rest.contains(taken) {
                let k = rest.index_of(taken);
                assert(fresh1.contains(rest[k]) || used1.contains(rest[k]));
                assert(pool.contains(taken));
            }
        }
        assert(all.no_duplicates()) by {
            assert forall|a: int, b: int| 0 <= a < b < all.len() implies all[a] != all[b] by {
                assert(all[b] == rest[b - 1]);
                if a == 0 {
                    assert(rest.contains(all[b]));
                } else {
                    assert(all[a] == rest[a - 1]);
                }
            }
        }
        assert forall|x: int| x == taken || rest.contains(x) implies all.contains(x) by {
            if x == taken {
                assert(all[0] == x);
            } else {
                assert(all[rest.index_of(x) + 1] == x);
            }
        }
    }
}

/// A tick sends to as many peers as it draws for, or to all of them when there
/// are fewer, and to no position twice.
pub proof fn picks_are_distinct(
    peers: Seq<PeerAddr>,
    last: Seq<PeerAddr>,
    cursor: usize,
    draws: Seq<usize>,
)
    ensures
        chosen_positions(peers, last, cursor, draws).len() == if draws.len() <= peers.len() {
            draws.len()
        } else {
            peers.len()
        },
        chosen_positions(peers, last, cursor, draws).no_duplicates(),
        forall|k: int|
            0 <= k < chosen_positions(peers, last, cursor, draws).len() ==> 0
                <= #[trigger] chosen_positions(peers, last, cursor, draws)[k] < peers.len(),
{
    lemma_pools(peers, last);
    lemma_picked(
        positions(peers, last, false),
        positions(peers, last, true),
        cursor,
        draws,
    );
}

/// Peers that the previous tick did not send to come first: the picks with a
/// number below the count of fresh peers are fresh, the later ones are not.
pub proof fn fresh_peers_come_first(
    peers: Seq<PeerAddr>,
    last: Seq<PeerAddr>,
    cursor: usize,
    draws: Seq<usize>,
)
    ensures
        forall|k: int|
            0 <= k < chosen_positions(peers, last, cursor, draws).len() ==> (last.contains(
                peers[#[trigger] chosen_positions(peers, last, cursor, draws)[k]],
            ) <==> k >= positions(peers, last, false).len()),
{
    lemma_pools(peers, last);
    lemma_picked(
        positions(peers, last, false),
        positions(peers, last, true),
        cursor,
        draws,
    );
}

/// A peer of the previous tick is chosen again only when every fresh peer is
/// chosen too.
pub proof fn used_peers_only_after_all_fresh(
    peers: Seq<PeerAddr>,
    last: Seq<PeerAddr>,
    cursor: usize,
    draws: Seq<usize>,
    k: int,
    fresh: int,
)
    requires
        0 <= k < chosen_positions(peers, last, cursor, draws).len(),
        last.contains(peers[chosen_positions(peers, last, cursor, draws)[k]]),
        0 <= fresh < peers.len(),
        !last.contains(peers[fresh]),
    ensures
        chosen_positions(peers, last, cursor, draws).contains(fresh),
{
    lemma_pools(peers, last);
    fresh_peers_come_first(peers, last, cursor, draws);
    lemma_picked(
        positions(peers, last, false),
        positions(peers, last, true),
        cursor,
        draws,
    );
}

/// With no more draws than there are fresh peers, no peer of the previous tick
/// is chosen again: two neighbours do not bounce a frame between themselves.
pub proof fn no_ping_pong(
    peers: Seq<PeerAddr>,
    last: Seq<PeerAddr>,
    cursor: usize,
    draws: Seq<usize>,
)
    requires
        draws.len() <= positions(peers, last, false).len(),
    ensures
        forall|k: int|
            0 <= k < chosen_positions(peers, last, cursor, draws).len() ==> !last.contains(
                #[trigger] addresses_at(peers, chosen_positions(peers, last, cursor, draws))[k],
            ),
{
    lemma_pools(peers, last);
    picks_are_distinct(peers, last, cursor, draws);
    fresh_peers_come_first(peers, last, cursor, draws);
}

/// With at least as many draws as peers, every peer is chosen.
pub proof fn few_peers_are_all_chosen(
    peers: Seq<PeerAddr>,
    last: Seq<PeerAddr>,
    cursor: usize,
    draws: Seq<usize>,
    p: int,
)
    requires
        draws.len() >= peers.len(),
        0 <= p < peers.len(),
    ensures
        chosen_positions(peers, last, cursor, draws).contains(p),
{
    lemma_pools(peers, last);
    assert(positions(peers, last, last.contains(peers[p])).contains(p));
    lemma_picked(
        positions(peers, last, false),
        positions(peers, last, true),
        cursor,
        draws,
    );
}

/// Where the peers are distinct, so are the addresses that a tick sends to, and
/// each of them is one of the peers.
pub proof fn targets_are_distinct_peers(
    peers: Seq<PeerAddr>,
    last: Seq<PeerAddr>,
    cursor: usize,
    draws: Seq<usize>,
)
    requires
        peers.no_duplicates(),
    ensures
        addresses_at(peers, chosen_positions(peers, last, cursor, draws)).no_duplicates(),
        forall|k: int|
            0 <= k < chosen_positions(peers, last, cursor, draws).len() ==> peers.contains(
                #[trigger] addresses_at(peers, chosen_positions(peers, last, cursor, draws))[k],
            ),
{
    picks_are_distinct(peers, last, cursor, draws);
}

/// With the draw held fixed, the cursor rotates through the candidates: of any
/// `remaining` consecutive cursor values exactly one takes the candidate at
/// `index`.
pub proof fn cursor_rotates(cursor: usize, draw: usize, remaining: nat, index: int)
    requires
        0 <= index < remaining,
        cursor + draw + remaining <= usize::MAX,
    ensures
        exists|j: int|
            0 <= j < remaining && #[trigger] pick_index((cursor + j) as usize, draw, remaining)
                == index,
        forall|i: int, j: int|
            0 <= i < j < remaining ==> #[trigger] pick_index((cursor + i) as usize, draw, remaining)
                != #[trigger] pick_index((cursor + j) as usize, draw, remaining),
{
    let n = remaining as int;
    let start = (cursor + draw) % n;
    let j = if index >= start { index - start } else { index - start + n };
    assert((cursor + draw + j) % n == index) by {
        vstd::arithmetic::div_mod::lemma_fundamental_div_mod(cursor + draw, n);
        let q = (cursor + draw) / n;
        assert((q + 1) * n == q * n + n && q * n == n * q) by (nonlinear_arith);
        if index >= start {
            vstd::arithmetic::div_mod::lemma_fundamental_div_mod_converse(
                cursor + draw + j,
                n,
                q,
                index,
            );
        } else {
            vstd::arithmetic::div_mod::lemma_fundamental_div_mod_converse(
                cursor + draw + j,
                n,
                q + 1,
                index,
            );
        }
    }
    assert(pick_index((cursor + j) as usize, draw, remaining) == index);
    assert forall|i: int, j: int| 0 <= i < j < remaining implies #[trigger] pick_index(
        (cursor + i) as usize,
        draw,
        remaining,
    ) != #[trigger] pick_index((cursor + j) as usize, draw, remaining) by {
        let a = cursor + draw + i;
        let b = cursor + draw + j;
        if a % n == b % n {
            vstd::arithmetic::div_mod::lemma_fundamental_div_mod(a, n);
            vstd::arithmetic::div_mod::lemma_fundamental_div_mod(b, n);
            let qa = a / n;
            let qb = b / n;
            assert(b - a == n * (qb - qa)) by (nonlinear_arith)
                requires
                    a == n * qa + a % n,
                    b == n * qb + b % n,
                    a % n == b % n,
            ;
            assert(false) by (nonlinear_arith)
                requires
                    b - a == n * (qb - qa),
                    0 < b - a < n,
            ;
        }
    }
}

/// With the cursor held fixed, every candidate has its draw: of the `remaining`
/// possible ones exactly one takes the candidate at `index`. So where all draws are
/// equally likely, so are all candidates.
pub proof fn every_candidate_has_one_draw(cursor: usize, remaining: nat, index: int)
    requires
        0 <= index < remaining,
        cursor + remaining <= usize::MAX,
    ensures
        exists|draw: int|
            0 <= draw < remaining && #[trigger] pick_index(cursor, draw as usize, remaining)
                == index,
        forall|a: int, b: int|
            0 <= a < b < remaining ==> #[trigger] pick_index(cursor, a as usize, remaining)
                != #[trigger] pick_index(cursor, b as usize, remaining),
{
    cursor_rotates(0, cursor, remaining, index);
    assert forall|j: int| 0 <= j < remaining implies #[trigger] pick_index(
        cursor,
        j as usize,
        remaining,
    ) == pick_index((0usize + j) as usize, cursor, remaining) by {}
    let j = choose|j: int|
        0 <= j < remaining && #[trigger] pick_index((0usize + j) as usize, cursor, remaining)
            == index;
    assert(pick_index(cursor, j as usize, remaining) == index);
}

/// Every position is in exactly one of the two pools, once.
proof fn lemma_pools(peers: Seq<PeerAddr>, last: Seq<PeerAddr>)
    ensures
        positions(peers, last, false).no_duplicates(),
        positions(peers, last, true).no_duplicates(),
        positions(peers, last, false).len() + positions(peers, last, true).len() == peers.len(),
        forall|x: int|
            #![trigger positions(peers, last, false).contains(x)]
            #![trigger peers[x]]
            positions(peers, last, false).contains(x) <==> 0 <= x < peers.len() && !last.contains(
                peers[x],
            ),
        forall|x: int|
            #![trigger positions(peers, last, true).contains(x)]
            #![trigger peers[x]]
            positions(peers, last, true).contains(x) <==> 0 <= x < peers.len() && last.contains(
                peers[x],
            ),
{
    lemma_positions(peers, last, false);
    lemma_positions(peers, last, true);
}

/// Two conditions that agree on what a sequence holds leave the same part of it.
proof fn lemma_filter_agrees(s: Seq<int>, p: spec_fn(int) -> bool, q: spec_fn(int) -> bool)
    requires
        forall|i: int| 0 <= i < s.len() ==> p(#[trigger] s[i]) == q(s[i]),
    ensures
        s.filter(p) == s.filter(q),
    decreases s.len(),
{
    reveal(Seq::filter);
    if s.len() > 0 {
        assert forall|i: int| 0 <= i < s.len() - 1 implies p(#[trigger] s.drop_last()[i]) == q(
            s.drop_last()[i],
        ) by {
            assert(s.drop_last()[i] == s[i]);
        }
        lemma_filter_agrees(s.drop_last(), p, q);
        assert(p(s[s.len() - 1]) == q(s[s.len() - 1]));
    }
}

/// A condition that all of a sequence meets leaves all of it.
proof fn lemma_filter_keeps(s: Seq<int>, p: spec_fn(int) -> bool)
    requires
        forall|i: int| 0 <= i < s.len() ==> p(#[trigger] s[i]),
    ensures
        s.filter(p) == s,
    decreases s.len(),
{
    reveal(Seq::filter);
    if s.len() > 0 {
        assert forall|i: int| 0 <= i < s.len() - 1 implies p(#[trigger] s.drop_last()[i]) by {
            assert(s.drop_last()[i] == s[i]);
        }
        lemma_filter_keeps(s.drop_last(), p);
        assert(p(s[s.len() - 1]));
        assert(s.drop_last().push(s.last()) =~= s);
    }
}

/// Two conditions one after the other leave what both together do.
proof fn lemma_filter_twice(s: Seq<int>, p: spec_fn(int) -> bool, q: spec_fn(int) -> bool)
    ensures
        s.filter(p).filter(q) == s.filter(|x: int| p(x) && q(x)),
    decreases s.len(),
{
    reveal(Seq::filter);
    if s.len() > 0 {
        let before = s.drop_last();
        lemma_filter_twice(before, p, q);
        if p(s.last()) {
            assert(before.filter(p).push(s.last()).drop_last() =~= before.filter(p));
        }
    }
}

/// What a condition leaves of a sequence without the item at `i` is what it leaves of
/// the whole if that item is ruled out too.
proof fn lemma_filter_removed(
    s: Seq<int>,
    i: int,
    p: spec_fn(int) -> bool,
    q: spec_fn(int) -> bool,
)
    requires
        s.no_duplicates(),
        0 <= i < s.len(),
        forall|j: int| 0 <= j < s.len() ==> q(#[trigger] s[j]) == (p(s[j]) && j != i),
    ensures
        s.remove(i).filter(p) == s.filter(q),
{
    let (a, b) = (s.take(i), s.skip(i + 1));
    let one = seq![s[i]];
    assert(s =~= a + (one + b));
    assert(s.remove(i) =~= a + b);
    Seq::filter_distributes_over_add(a, b, p);
    Seq::filter_distributes_over_add(a, one + b, q);
    Seq::filter_distributes_over_add(one, b, q);
    assert(one.filter(q) =~= Seq::<int>::empty()) by {
        reveal_with_fuel(Seq::<_>::filter, 2);
        assert(one.drop_last() =~= Seq::<int>::empty());
        assert(!q(one.last()));
    }
    assert forall|j: int| 0 <= j < a.len() implies p(#[trigger] a[j]) == q(a[j]) by {
        assert(a[j] == s[j]);
    }
    assert forall|j: int| 0 <= j < b.len() implies p(#[trigger] b[j]) == q(b[j]) by {
        assert(b[j] == s[i + 1 + j]);
    }
    lemma_filter_agrees(a, p, q);
    lemma_filter_agrees(b, p, q);
    assert(a.filter(q) + (Seq::<int>::empty() + b.filter(q)) =~= a.filter(q) + b.filter(q));
}

/// The positions of a pool are those of all positions that belong to it.
proof fn lemma_positions_filter(peers: Seq<PeerAddr>, last: Seq<PeerAddr>, used: bool, n: nat)
    requires
        n <= peers.len(),
    ensures
        positions(peers.take(n as int), last, used) == Seq::new(n, |i: int| i).filter(
            |p: int| last.contains(peers[p]) == used,
        ),
    decreases n,
{
    let all = Seq::new(n, |i: int| i);
    reveal(Seq::filter);
    if n > 0 {
        let fewer = (n - 1) as nat;
        lemma_positions_filter(peers, last, used, fewer);
        assert(peers.take(n as int).drop_last() =~= peers.take(fewer as int));
        assert(all.drop_last() =~= Seq::new(fewer, |i: int| i));
        assert(all.last() == n - 1);
        assert(peers.take(n as int).last() == peers[n - 1]);
    }
}

/// What is left of the two pools before pick number `k`, and what that pick takes.
proof fn lemma_pick(fresh: Seq<int>, used: Seq<int>, cursor: usize, draws: Seq<usize>, k: int)
    requires
        fresh.no_duplicates(),
        used.no_duplicates(),
        forall|x: int| fresh.contains(x) ==> !used.contains(x),
        0 <= k < draws.len(),
        k < fresh.len() + used.len(),
    ensures
        ({
            let picks = picked(fresh, used, cursor, draws);
            let open = |x: int| !picks.take(k).contains(x);
            let left = if k < fresh.len() {
                fresh.filter(open)
            } else {
                used.filter(open)
            };
            let i = ((cursor + k + draws[k]) % (usize::MAX + 1)) % left.len() as int;
            &&& k < picks.len()
            &&& fresh.filter(open).len() == if k < fresh.len() {
                fresh.len() - k
            } else {
                0
            }
            &&& k >= fresh.len() ==> used.filter(open).len() == fresh.len() + used.len() - k
            &&& picks[k] == left[i]
        }),
    decreases draws.len(),
{
    let all = picked(fresh, used, cursor, draws);
    let from_fresh = fresh.len() > 0;
    let pool = if from_fresh { fresh } else { used };
    let i = pick_index(cursor, draws[0], pool.len());
    let taken = pool[i];
    let (fresh1, used1) = if from_fresh { (fresh.remove(i), used) } else { (fresh, used.remove(i)) };
    let rest = picked(fresh1, used1, cursor.wrapping_add(1), draws.drop_first());
    let open = |x: int| !all.take(k).contains(x);
    let wide: int = usize::MAX + 1;
    assert(0 <= i < pool.len()) by {
        vstd::arithmetic::div_mod::lemma_mod_bound(
            cursor.wrapping_add(draws[0]) as int,
            pool.len() as int,
        );
    }
    assert(all == seq![taken] + rest);
    assert(pool.contains(taken));
    lemma_picked(fresh, used, cursor, draws);
    if k == 0 {
        assert(all.take(0) =~= Seq::<int>::empty());
        lemma_filter_keeps(fresh, open);
        lemma_filter_keeps(used, open);
        lemma_wrapped(cursor as int, draws[0] as int);
        assert(all[0] == taken);
    } else {
        let next = cursor.wrapping_add(1);
        let open1 = |x: int| !rest.take(k - 1).contains(x);
        let (a, b) = (all.take(k), rest.take(k - 1));
        assert forall|x: int|
            #![trigger a.contains(x)]
            #![trigger b.contains(x)]
            open(x) == (open1(x) && x != taken) by {
            if a.contains(x) {
                let j = a.index_of(x);
                if j > 0 {
                    assert(b[j - 1] == x);
                }
            }
            if b.contains(x) {
                let j = b.index_of(x);
                assert(a[j + 1] == x);
            }
            assert(a[0] == taken);
        }
        lemma_removed(pool, i);
        lemma_pick(fresh1, used1, next, draws.drop_first(), k - 1);
        assert(all[k] == rest[k - 1]);
        if from_fresh {
            lemma_filter_removed(fresh, i, open1, open);
            assert forall|j: int| 0 <= j < used.len() implies open1(#[trigger] used[j]) == open(
                used[j],
            ) by {
                assert(used.contains(used[j]));
            }
            lemma_filter_agrees(used, open1, open);
        } else {
            lemma_filter_removed(used, i, open1, open);
            lemma_filter_agrees(fresh, open1, open);
        }
        assert(draws.drop_first()[k - 1] == draws[k]);
        lemma_wrapped(cursor as int, 1);
        assert((next + (k - 1) + draws[k]) % wide == (cursor + k + draws[k]) % wide) by {
            if next != cursor + 1 {
                assert(next == cursor + 1 - wide);
                vstd::arithmetic::div_mod::lemma_mod_add_multiples_vanish(
                    next + (k - 1) + draws[k],
                    wide,
                );
            }
        }
    }
}

/// A sum that wraps around is the remainder of the sum.
proof fn lemma_wrapped(a: int, b: int)
    requires
        0 <= a <= usize::MAX,
        0 <= b <= usize::MAX,
    ensures
        (a as usize).wrapping_add(b as usize) == (a + b) % (usize::MAX + 1),
{
    let wide: int = usize::MAX + 1;
    if a + b < wide {
        vstd::arithmetic::div_mod::lemma_small_mod((a + b) as nat, wide as nat);
    } else {
        vstd::arithmetic::div_mod::lemma_small_mod((a + b - wide) as nat, wide as nat);
        vstd::arithmetic::div_mod::lemma_mod_add_multiples_vanish(a + b - wide, wide);
    }
}

/// A sequence without the item at `i` holds what it held but that item.
proof fn lemma_removed(pool: Seq<int>, i: int)
    requires
        pool.no_duplicates(),
        0 <= i < pool.len(),
    ensures
        pool.remove(i).no_duplicates(),
        forall|x: int| pool.remove(i).contains(x) <==> pool.contains(x) && x != pool[i],
{
    let left = pool.remove(i);
    assert forall|x: int| left.contains(x) <==> pool.contains(x) && x != pool[i] by {
        if left.contains(x) {
            let j = left.index_of(x);
            assert(left[j] == if j < i { pool[j] } else { pool[j + 1] });
            assert(pool.contains(x));
        }
        if pool.contains(x) && x != pool[i] {
            let j = pool.index_of(x);
            assert(left[if j < i { j } else { j - 1 }] == x);
        }
    }
}

/// Who is picked: out of the peers that are left, in the order in which they are
/// listed, and leaving out those of the previous tick as long as others are left,
/// the one whose number is the sum of the cursor, the number of picks before and
/// the draw, counted around.
pub proof fn each_pick_is_the_one_drawn(
    peers: Seq<PeerAddr>,
    last: Seq<PeerAddr>,
    cursor: usize,
    draws: Seq<usize>,
    k: int,
)
    requires
        0 <= k < draws.len() <= peers.len(),
    ensures
        ({
            let picks = chosen_positions(peers, last, cursor, draws);
            let all = Seq::new(peers.len(), |i: int| i);
            let fresh = all.filter(|p: int| !last.contains(peers[p]) && !picks.take(k).contains(p));
            let left = if fresh.len() > 0 {
                fresh
            } else {
                all.filter(|p: int| !picks.take(k).contains(p))
            };
            &&& left.len() == if k < positions(peers, last, false).len() {
                positions(peers, last, false).len() - k
            } else {
                peers.len() - k
            }
            &&& picks[k] == left[((cursor + k + draws[k]) % (usize::MAX + 1)) % left.len() as int]
        }),
{
    let picks = chosen_positions(peers, last, cursor, draws);
    let all = Seq::new(peers.len(), |i: int| i);
    let (f, u) = (positions(peers, last, false), positions(peers, last, true));
    let open = |x: int| !picks.take(k).contains(x);
    lemma_pools(peers, last);
    lemma_pick(f, u, cursor, draws, k);
    assert(peers.take(peers.len() as int) =~= peers);
    lemma_positions_filter(peers, last, false, peers.len());
    lemma_positions_filter(peers, last, true, peers.len());
    let is_fresh = |p: int| last.contains(peers[p]) == false;
    let is_used = |p: int| last.contains(peers[p]) == true;
    lemma_filter_twice(all, is_fresh, open);
    lemma_filter_twice(all, is_used, open);
    let fresh_left = |p: int| !last.contains(peers[p]) && !picks.take(k).contains(p);
    lemma_filter_agrees(all, |x: int| is_fresh(x) && open(x), fresh_left);
    assert(all.filter(fresh_left) == f.filter(open));
    if k >= f.len() {
        assert forall|i: int| 0 <= i < all.len() implies (is_used(#[trigger] all[i]) && open(all[i]))
            == open(all[i]) by {
            if open(all[i]) && !is_used(all[i]) {
                assert(fresh_left(all[i]));
                all.lemma_filter_contains(fresh_left, i);
            }
        }
        lemma_filter_agrees(all, |x: int| is_used(x) && open(x), open);
    }
}

} // verus!
