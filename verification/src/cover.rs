//! The cover-traffic scheduler, which makes a node's traffic look the same
//! whether or not it has anything to say.

use bytes::BytesMut;
use rand::Rng;
use vstd::prelude::*;

use crate::addr::PeerAddr;
use crate::buffer::bytes_of;
use crate::chance::{Dice, Roll};
use crate::config::CoverStrategy;
use crate::lanes::{covers_made, taken, Outbox};
use crate::node::Node;
use crate::selection::{
    addresses_at, chosen_positions, each_pick_is_the_one_drawn, pick_positions, picks_are_distinct,
    positions, split_pools, targets_are_distinct_peers, used_peers_only_after_all_fresh, values,
};

verus! {

/// Draws a number below `bound`.
///
/// Calls `rand::Rng::random_range` on the generator that `rand::rng` gives, once.
/// Trusted: the number is below the bound; which one it is, is chance. The bound and
/// the number are added to the log of the dice.
#[verifier::external_body]
fn random_below(dice: &mut Dice, bound: usize) -> (draw: usize)
    requires
        bound > 0,
    ensures
        draw < bound,
        final(dice).rolls() == old(dice).rolls().push(Roll { bound, draw }),
{
    rand::rng().random_range(0..bound)
}

/// How many candidates pick number `k` chooses from, when `fresh` of `total`
/// peers are fresh.
pub open spec fn candidates(fresh: nat, total: nat, k: int) -> int {
    if k < fresh {
        fresh - k
    } else {
        total - k
    }
}

/// Whether each draw is below the number of candidates of its pick.
pub open spec fn draws_in_range(draws: Seq<usize>, fresh: nat, total: nat) -> bool {
    forall|k: int| 0 <= k < draws.len() ==> #[trigger] draws[k] < candidates(fresh, total, k)
}

/// The smaller of the wanted fanout and the number of peers.
pub open spec fn effective_fanout(fanout: usize, peers: nat) -> nat {
    if fanout <= peers {
        fanout as nat
    } else {
        peers
    }
}

/// Whether `targets` is what some `count` random draws, each below the number of
/// candidates of its pick, choose from `peers`.
pub open spec fn random_choice(
    peers: Seq<PeerAddr>,
    last: Seq<PeerAddr>,
    cursor: usize,
    count: nat,
    targets: Seq<PeerAddr>,
) -> bool {
    exists|draws: Seq<usize>|
        {
            &&& draws.len() == count
            &&& draws_in_range(draws, positions(peers, last, false).len(), peers.len())
            &&& targets == addresses_at(
                peers,
                #[trigger] chosen_positions(peers, last, cursor, draws),
            )
        }
}

/// A tick sends to as many peers as the fanout says, and to all of them when there
/// are fewer.
pub proof fn the_fanout_is_kept(fanout: usize, peers: nat)
    ensures
        fanout <= peers ==> effective_fanout(fanout, peers) == fanout,
        fanout > peers ==> effective_fanout(fanout, peers) == peers,
{
}

/// Peers beyond the fanout do not change how many are sent to, and neither does a
/// fanout beyond the peers; up to there each step of the fanout is one more target.
pub proof fn the_smaller_number_decides(fanout: usize, peers: nat, more: nat)
    ensures
        fanout <= peers ==> effective_fanout(fanout, peers + more) == effective_fanout(
            fanout,
            peers,
        ),
        peers <= fanout && fanout + more <= usize::MAX ==> effective_fanout(
            (fanout + more) as usize,
            peers,
        ) == effective_fanout(fanout, peers),
        fanout < peers && fanout < usize::MAX ==> effective_fanout((fanout + 1) as usize, peers)
            == effective_fanout(fanout, peers) + 1,
{
}

/// Chance alone decides among the candidates. Each roll has as many outcomes as there
/// are candidates: the peers that are left, without those of the previous tick as long
/// as others are left. Its outcome, counted around from the cursor and the number of
/// picks before, is the number of the candidate that is picked.
pub proof fn the_rolls_decide(
    peers: Seq<PeerAddr>,
    last: Seq<PeerAddr>,
    cursor: usize,
    rolls: Seq<Roll>,
    k: int,
)
    requires
        0 <= k < rolls.len() <= peers.len(),
        rolls[k].bound == candidates(positions(peers, last, false).len(), peers.len(), k),
    ensures
        ({
            let draws = rolls.map_values(|roll: Roll| roll.draw);
            let picks = chosen_positions(peers, last, cursor, draws);
            let all = Seq::new(peers.len(), |i: int| i);
            let fresh = all.filter(|p: int| !last.contains(peers[p]) && !picks.take(k).contains(p));
            let left = if fresh.len() > 0 {
                fresh
            } else {
                all.filter(|p: int| !picks.take(k).contains(p))
            };
            let number = (cursor + k + rolls[k].draw) % (usize::MAX + 1);
            &&& rolls[k].bound == left.len()
            &&& picks[k] == left[number % left.len() as int]
            &&& addresses_at(peers, picks)[k] == peers[left[number % left.len() as int]]
        }),
{
    let draws = rolls.map_values(|roll: Roll| roll.draw);
    each_pick_is_the_one_drawn(peers, last, cursor, draws, k);
    picks_are_distinct(peers, last, cursor, draws);
}

/// Whatever chance says: distinct peers make distinct targets, all of them peers, and
/// a peer of the previous tick is among them only if all others are.
pub proof fn targets_are_well_chosen(
    peers: Seq<PeerAddr>,
    last: Seq<PeerAddr>,
    cursor: usize,
    count: nat,
    targets: Seq<PeerAddr>,
)
    requires
        peers.no_duplicates(),
        count <= peers.len(),
        random_choice(peers, last, cursor, count, targets),
    ensures
        targets.len() == count,
        targets.no_duplicates(),
        forall|k: int| 0 <= k < targets.len() ==> peers.contains(#[trigger] targets[k]),
        forall|k: int, p: int|
            0 <= k < targets.len() && last.contains(#[trigger] targets[k]) && 0 <= p < peers.len()
                && !last.contains(#[trigger] peers[p]) ==> targets.contains(peers[p]),
{
    let draws = choose|draws: Seq<usize>|
        {
            &&& draws.len() == count
            &&& draws_in_range(draws, positions(peers, last, false).len(), peers.len())
            &&& targets == addresses_at(
                peers,
                #[trigger] chosen_positions(peers, last, cursor, draws),
            )
        };
    let picks = chosen_positions(peers, last, cursor, draws);
    picks_are_distinct(peers, last, cursor, draws);
    targets_are_distinct_peers(peers, last, cursor, draws);
    assert forall|k: int, p: int|
        0 <= k < targets.len() && last.contains(#[trigger] targets[k]) && 0 <= p < peers.len()
            && !last.contains(#[trigger] peers[p]) implies targets.contains(peers[p]) by {
        used_peers_only_after_all_fresh(peers, last, cursor, draws, k, p);
        assert(targets[picks.index_of(p)] == peers[p]);
    }
}

/// One frame and the peers it goes to.
pub struct Tick {
    /// The frame.
    pub payload: BytesMut,
    /// The peers, each of which gets the frame once.
    pub targets: Vec<PeerAddr>,
}

/// What ended a wait of the scheduler.
#[derive(Clone, Copy, Debug, PartialEq, Eq, Structural)]
pub enum Wakeup {
    /// The time for the next tick has come.
    Due,
    /// The scheduler was woken.
    Woken,
}

/// What the scheduler does after a wait.
#[derive(Clone, Copy, Debug, PartialEq, Eq, Structural)]
pub enum Action {
    /// Send one frame and wait again.
    Send,
    /// Return.
    Stop,
}

/// What the scheduler does after a wait: it stops when it was woken or the node
/// is shutting down, and otherwise sends.
pub fn after_wait(wakeup: Wakeup, shutting_down: bool) -> (action: Action)
    ensures
        action == Action::Stop <==> wakeup == Wakeup::Woken || shutting_down,
{
    match wakeup {
        Wakeup::Woken => Action::Stop,
        Wakeup::Due => if shutting_down {
            Action::Stop
        } else {
            Action::Send
        },
    }
}

/// The scheduler of a node's outbound traffic.
///
/// On every tick it takes the next frame (a message of the application, else a
/// frame to be sent on, else cover) and names the peers that it goes to. The
/// timing of ticks does not depend on what is sent.
pub struct CoverScheduler {
    state: Node,
    strategy: CoverStrategy,
    /// Moves on by one with every pick, so that two neighbours do not choose the
    /// same next peer in lockstep.
    cursor: usize,
    /// The peers of the previous tick, which the next one avoids if it can.
    last_peers: Vec<PeerAddr>,
    /// What decides among the candidates of a pick.
    dice: Dice,
}

impl CoverScheduler {
    /// The node whose frames are sent.
    pub closed spec fn spec_state(&self) -> Node {
        self.state
    }

    /// The schedule.
    pub closed spec fn spec_strategy(&self) -> CoverStrategy {
        self.strategy
    }

    /// The number of picks so far, up to wrapping.
    pub closed spec fn cursor(&self) -> usize {
        self.cursor
    }

    /// The peers of the previous tick.
    pub closed spec fn last_peers(&self) -> Seq<PeerAddr> {
        self.last_peers@
    }

    /// The rolls of the dice so far, in order: one for every pick that was left to
    /// chance.
    pub closed spec fn rolls(&self) -> Seq<Roll> {
        self.dice.rolls()
    }

    /// The rolls of a scheduler are those of its dice, as they fell.
    proof fn lemma_rolls(&self)
        ensures
            self.rolls() == self.dice.rolls(),
    {
    }

    /// Creates a scheduler that drains `state` according to `strategy`.
    pub fn new(state: Node, strategy: CoverStrategy) -> (scheduler: Self)
        ensures
            scheduler.spec_state() == state,
            scheduler.spec_strategy() == strategy,
            scheduler.cursor() == 0,
            scheduler.last_peers() == Seq::<PeerAddr>::empty(),
            scheduler.rolls() == Seq::<Roll>::empty(),
    {
        CoverScheduler { state, strategy, cursor: 0, last_peers: Vec::new(), dice: Dice::new() }
    }

    /// Returns the schedule.
    pub fn strategy(&self) -> (strategy: CoverStrategy)
        ensures
            strategy == self.spec_strategy(),
    {
        self.strategy
    }

    /// Returns the node whose frames are sent.
    pub fn state(&self) -> (state: &Node)
        ensures
            *state == self.spec_state(),
    {
        &self.state
    }

    /// Names the peers that one tick sends to, with one draw for each pick, and
    /// remembers them for the next tick.
    pub fn pick_targets_with(&mut self, peers: &[PeerAddr], draws: &[usize]) -> (targets: Vec<
        PeerAddr,
    >)
        ensures
            targets@ == addresses_at(
                peers@,
                chosen_positions(peers@, old(self).last_peers(), old(self).cursor(), draws@),
            ),
            final(self).last_peers() == targets@,
            final(self).cursor() == old(self).cursor().wrapping_add(targets@.len() as usize),
            final(self).spec_state() == old(self).spec_state(),
            final(self).spec_strategy() == old(self).spec_strategy(),
            final(self).rolls() == old(self).rolls(),
            // One target for each draw, as long as there are peers.
            targets@.len() == if draws@.len() <= peers@.len() {
                draws@.len()
            } else {
                peers@.len()
            },
            forall|k: int|
                0 <= k < targets@.len() ==> #[trigger] targets@[k] == peers@[chosen_positions(
                    peers@,
                    old(self).last_peers(),
                    old(self).cursor(),
                    draws@,
                )[k]],
    {
        let (fresh, used) = split_pools(peers, &self.last_peers);
        let (chosen, cursor) = pick_positions(fresh, used, self.cursor, draws);
        let ghost all = chosen_positions(peers@, self.last_peers@, self.cursor, draws@);
        proof {
            picks_are_distinct(peers@, self.last_peers@, self.cursor, draws@);
            assert(values(chosen@) == all);
        }
        let mut targets: Vec<PeerAddr> = Vec::new();
        let mut remembered: Vec<PeerAddr> = Vec::new();
        let mut i: usize = 0;
        while i < chosen.len()
            invariant
                i <= chosen.len(),
                values(chosen@) == all,
                forall|k: int| 0 <= k < all.len() ==> 0 <= #[trigger] all[k] < peers@.len(),
                targets@ == addresses_at(peers@, all.take(i as int)),
                remembered@ == targets@,
            decreases chosen.len() - i,
        {
            assert(all[i as int] == chosen@[i as int]);
            targets.push(peers[chosen[i]]);
            remembered.push(peers[chosen[i]]);
            i += 1;
        }
        assert(all.take(i as int) =~= all);
        self.cursor = cursor;
        self.last_peers = remembered;
        targets
    }

    /// Names the peers that one tick sends to: `fanout` distinct ones, or all of
    /// them if there are fewer, those first that the previous tick left out.
    pub fn pick_targets(&mut self, peers: &[PeerAddr], fanout: usize) -> (targets: Vec<PeerAddr>)
        ensures
            random_choice(
                peers@,
                old(self).last_peers(),
                old(self).cursor(),
                effective_fanout(fanout, peers@.len()),
                targets@,
            ),
            targets@.len() == effective_fanout(fanout, peers@.len()),
            final(self).last_peers() == targets@,
            final(self).cursor() == old(self).cursor().wrapping_add(targets@.len() as usize),
            final(self).spec_state() == old(self).spec_state(),
            final(self).spec_strategy() == old(self).spec_strategy(),
            // As many targets as the fanout says, or all peers if there are fewer.
            targets@.len() == if fanout <= peers@.len() {
                fanout as nat
            } else {
                peers@.len()
            },
            // The dice are rolled once for each target, among all its candidates.
            final(self).rolls().len() == old(self).rolls().len() + targets@.len(),
            final(self).rolls().take(old(self).rolls().len() as int) == old(self).rolls(),
            forall|k: int|
                0 <= k < targets@.len() ==> final(self).rolls().skip(
                    old(self).rolls().len() as int,
                )[k].draw < (#[trigger] final(self).rolls().skip(
                    old(self).rolls().len() as int,
                )[k]).bound == if k < positions(peers@, old(self).last_peers(), false).len() {
                    positions(peers@, old(self).last_peers(), false).len() - k
                } else {
                    peers@.len() - k
                },
            // The targets are those that these rolls choose.
            targets@ == addresses_at(
                peers@,
                chosen_positions(
                    peers@,
                    old(self).last_peers(),
                    old(self).cursor(),
                    final(self).rolls().skip(old(self).rolls().len() as int).map_values(
                        |roll: Roll| roll.draw,
                    ),
                ),
            ),
    {
        let total: usize = peers.len();
        let fresh: usize = split_pools(peers, &self.last_peers).0.len();
        let wanted: usize = if fanout <= total { fanout } else { total };
        let mut draws: Vec<usize> = Vec::new();
        let ghost before = self.rolls();
        assert(before.skip(before.len() as int).map_values(|roll: Roll| roll.draw) =~= draws@);
        while draws.len() < wanted
            invariant
                draws.len() <= wanted <= total,
                draws_in_range(draws@, fresh as nat, total as nat),
                self.spec_state() == old(self).spec_state(),
                self.spec_strategy() == old(self).spec_strategy(),
                self.cursor() == old(self).cursor(),
                self.last_peers() == old(self).last_peers(),
                before == old(self).rolls(),
                self.rolls().len() == before.len() + draws.len(),
                self.rolls().take(before.len() as int) == before,
                forall|k: int|
                    0 <= k < draws.len() ==> self.rolls().skip(before.len() as int)[k].draw < (
                    #[trigger] self.rolls().skip(before.len() as int)[k]).bound == if k < fresh {
                        fresh - k
                    } else {
                        total - k
                    },
                draws@ == self.rolls().skip(before.len() as int).map_values(
                    |roll: Roll| roll.draw,
                ),
            decreases wanted - draws.len(),
        {
            let k: usize = draws.len();
            let bound: usize = if k < fresh { fresh - k } else { total - k };
            let ghost rolled = self.dice.rolls();
            let draw: usize = random_below(&mut self.dice, bound);
            proof {
                let roll = Roll { bound, draw };
                self.lemma_rolls();
                assert(self.rolls().skip(before.len() as int) =~= rolled.skip(
                    before.len() as int,
                ).push(roll));
                assert(self.rolls().take(before.len() as int) =~= rolled.take(before.len() as int));
            }
            draws.push(draw);
        }
        proof {
            picks_are_distinct(peers@, self.last_peers@, self.cursor, draws@);
        }
        self.pick_targets_with(peers, draws.as_slice())
    }

    /// Prepares one tick: the next frame, and the peers that it goes to. Exactly
    /// one draw is made, however many peers there are. Without connected peers
    /// there is nothing to do, and none is made: what waits goes on waiting.
    pub fn send_one(&mut self, outbox: &mut Outbox, peers: &[PeerAddr]) -> (tick: Option<Tick>)
        requires
            old(self).spec_state().wf(),
            old(outbox).node() == old(self).spec_state().spec_peashape(),
        ensures
            final(outbox).node() == old(outbox).node(),
            final(self).spec_state() == old(self).spec_state(),
            final(self).spec_strategy() == old(self).spec_strategy(),
            match tick {
                None => {
                    &&& peers@.len() == 0
                    &&& final(outbox).drawn() == old(outbox).drawn()
                    &&& final(self).last_peers() == old(self).last_peers()
                    &&& final(self).rolls() == old(self).rolls()
                    &&& final(self).cursor() == old(self).cursor()
                },
                Some(tick) => {
                    let config = old(self).spec_state().spec_config();
                    &&& peers@.len() > 0
                    &&& bytes_of(tick.payload).len() == config.message_size
                    &&& old(self).spec_state().sends(bytes_of(tick.payload))
                    &&& final(outbox).drawn().len() == old(outbox).drawn().len() + 1
                    &&& final(outbox).drawn().drop_last() == old(outbox).drawn()
                    &&& old(self).spec_state().follows(
                        final(outbox).drawn().last(),
                        bytes_of(tick.payload),
                    )
                    &&& tick.targets@.len() == effective_fanout(config.fanout, peers@.len())
                    &&& random_choice(
                        peers@,
                        old(self).last_peers(),
                        old(self).cursor(),
                        effective_fanout(config.fanout, peers@.len()),
                        tick.targets@,
                    )
                    &&& tick.targets@.len() == if config.fanout <= peers@.len() {
                        config.fanout as nat
                    } else {
                        peers@.len()
                    }
                    &&& final(self).rolls().len() == old(self).rolls().len() + tick.targets@.len()
                    &&& final(self).rolls().take(old(self).rolls().len() as int)
                        == old(self).rolls()
                    &&& forall|k: int|
                        0 <= k < tick.targets@.len() ==> (#[trigger] final(self).rolls().skip(
                            old(self).rolls().len() as int,
                        )[k]).bound == if k < positions(
                            peers@,
                            old(self).last_peers(),
                            false,
                        ).len() {
                            positions(peers@, old(self).last_peers(), false).len() - k
                        } else {
                            peers@.len() - k
                        }
                    &&& tick.targets@ == addresses_at(
                        peers@,
                        chosen_positions(
                            peers@,
                            old(self).last_peers(),
                            old(self).cursor(),
                            final(self).rolls().skip(old(self).rolls().len() as int).map_values(
                                |roll: Roll| roll.draw,
                            ),
                        ),
                    )
                    &&& match final(outbox).drawn().last() {
                        Some(waiting) => {
                            &&& bytes_of(tick.payload) == waiting
                            &&& taken(old(outbox).node(), waiting)
                        },
                        None => covers_made(old(outbox).node()).contains(bytes_of(tick.payload)),
                    }
                    &&& final(self).last_peers() == tick.targets@
                    &&& final(self).cursor() == old(self).cursor().wrapping_add(
                        tick.targets@.len() as usize,
                    )
                },
            },
    {
        if peers.is_empty() {
            return None;
        }
        let fanout: usize = self.state.config().fanout;
        let payload = self.state.next_outbound(outbox);
        let targets = self.pick_targets(peers, fanout);
        Some(Tick { payload, targets })
    }
}

} // verus!
