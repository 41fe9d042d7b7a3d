//! Summoning: a random draw picks jurors of the roster for a dispute.

use vstd::prelude::*;
use crate::context_court::{CourtView, Error, Pallet};
use crate::lists::{clone_did, clone_dids, contains_byte};
use crate::table::Table;
use crate::types::{ContentId, ContentIdView, Did};

verus! {

/// Whether the draw `random` picks the roster position `position`: one of
/// its bytes has that value.
pub open spec fn picks(random: Seq<u8>, position: int) -> bool {
    0 <= position < 256 && random.contains(position as u8)
}

/// The jurors that the draw `random` newly summons to `id` among the roster
/// positions below `upto`, in the order of the roster.  A position counts
/// where the draw picks it, it holds a juror who is not on duty for `id`, and
/// the dispute still has room for one more juror.
pub open spec fn summoned_below(s: CourtView, id: ContentIdView, random: Seq<u8>, upto: nat) -> Seq<
    Seq<u8>,
>
    decreases upto,
{
    if upto == 0 {
        Seq::empty()
    } else {
        let earlier = summoned_below(s, id, random, (upto - 1) as nat);
        let position = upto - 1;
        if position < s.jurors.len() && picks(random, position) && !s.on_duty(
            s.jurors[position],
            id,
        ) && s.summoned(id) + earlier.len() < s.config.max_jurors_per_dispute {
            earlier.push(s.jurors[position])
        } else {
            earlier
        }
    }
}

/// The jurors that the draw `random` newly summons to `id`.
pub open spec fn newly_summoned(s: CourtView, id: ContentIdView, random: Seq<u8>) -> Seq<Seq<u8>> {
    summoned_below(s, id, random, 256)
}

/// Why no juror can be summoned to `id`, if none can.
pub open spec fn summon_error(s: CourtView, id: ContentIdView, random: Seq<u8>) -> Option<Error> {
    if s.summoned(id) > s.config.max_jurors_per_dispute {
        Some(Error::MaxJurorsReached)
    } else if s.selection(id).len() + newly_summoned(s, id, random).len()
        > s.config.max_jurors_per_dispute {
        Some(Error::StorageOverflow)
    } else {
        None
    }
}

/// The duty relation `duty` with each juror of `jurors` on duty for `id`.
pub open spec fn with_duty(
    duty: Map<(Seq<u8>, ContentIdView), bool>,
    jurors: Seq<Seq<u8>>,
    id: ContentIdView,
) -> Map<(Seq<u8>, ContentIdView), bool> {
    Map::new(
        |k: (Seq<u8>, ContentIdView)| duty.contains_key(k) || (k.1 == id && jurors.contains(k.0)),
        |k: (Seq<u8>, ContentIdView)|
            if k.1 == id && jurors.contains(k.0) {
                true
            } else {
                duty[k]
            },
    )
}

/// The court after the draw `random` summoned jurors to `id`: the newly
/// summoned are on duty, follow the jurors selected before, and are counted.
/// Where the draw summons nobody, nothing changes.
pub open spec fn summon_next(s: CourtView, id: ContentIdView, random: Seq<u8>) -> CourtView {
    let fresh = newly_summoned(s, id, random);
    if fresh.len() == 0 {
        s
    } else {
        CourtView {
            jury_duty: with_duty(s.jury_duty, fresh, id),
            jury_selection: s.jury_selection.insert(id, s.selection(id) + fresh),
            jury_summoned: s.jury_summoned.insert(id, (s.summoned(id) + fresh.len()) as u32),
            ..s
        }
    }
}

/// The court after an attempt to summon jurors to `id`: as [`summon_next`]
/// says where the attempt goes through, else unchanged.
pub open spec fn summon_attempt(s: CourtView, id: ContentIdView, random: Seq<u8>) -> CourtView {
    if summon_error(s, id, random) is None {
        summon_next(s, id, random)
    } else {
        s
    }
}

/// What holds of the jurors summoned among the positions below `upto`: they
/// are jurors of the roster at picked positions, none was on duty, none
/// comes twice, and they fit into the room that the dispute has left.
pub proof fn lemma_summoned_below(s: CourtView, id: ContentIdView, random: Seq<u8>, upto: nat)
    requires
        s.jurors.no_duplicates(),
    ensures
        ({
            let fresh = summoned_below(s, id, random, upto);
            &&& fresh.len() <= upto
            &&& fresh.len() > 0 ==> s.summoned(id) + fresh.len() <= s.config.max_jurors_per_dispute
            &&& forall|k: int|
                0 <= k < fresh.len() ==> !s.on_duty(#[trigger] fresh[k], id) && exists|p: int|
                    0 <= p < upto && p < s.jurors.len() && picks(random, p) && s.jurors[p]
                        == fresh[k]
            &&& fresh.no_duplicates()
        }),
    decreases upto,
{
    if upto > 0 {
        lemma_summoned_below(s, id, random, (upto - 1) as nat);
        let earlier = summoned_below(s, id, random, (upto - 1) as nat);
        let fresh = summoned_below(s, id, random, upto);
        let position = upto - 1;
        if fresh.len() > earlier.len() {
            assert forall|k: int| 0 <= k < fresh.len() implies !s.on_duty(#[trigger] fresh[k], id)
                && exists|p: int|
                0 <= p < upto && p < s.jurors.len() && picks(random, p) && s.jurors[p]
                    == fresh[k] by {
                if k < earlier.len() {
                    let p = choose|p: int|
                        0 <= p < upto - 1 && p < s.jurors.len() && picks(random, p) && s.jurors[p]
                            == earlier[k];
                    assert(s.jurors[p] == fresh[k]);
                } else {
                    assert(s.jurors[position] == fresh[k]);
                }
            }
            assert forall|a: int, b: int|
                0 <= a < fresh.len() && 0 <= b < fresh.len() && a != b implies fresh[a]
                != fresh[b] by {
                if a == earlier.len() {
                    let p = choose|p: int|
                        0 <= p < upto - 1 && p < s.jurors.len() && picks(random, p) && s.jurors[p]
                            == earlier[b];
                } else if b == earlier.len() {
                    let p = choose|p: int|
                        0 <= p < upto - 1 && p < s.jurors.len() && picks(random, p) && s.jurors[p]
                            == earlier[a];
                }
            }
        }
    }
}

/// Summoning never assigns a juror who is on duty for the dispute already,
/// assigns no juror twice, and never lets the count of summoned jurors pass
/// the limit of a dispute, however often it is attempted: an attempt on a
/// court whose count is within the limit leaves it within the limit.
pub proof fn lemma_summon_keeps_rules(s: CourtView, id: ContentIdView, random: Seq<u8>)
    requires
        s.inv(),
    ensures
        ({
            let fresh = newly_summoned(s, id, random);
            let after = summon_attempt(s, id, random);
            &&& forall|k: int| 0 <= k < fresh.len() ==> !s.on_duty(#[trigger] fresh[k], id)
            &&& fresh.no_duplicates()
            &&& s.summoned(id) <= s.config.max_jurors_per_dispute ==> after.summoned(id)
                <= s.config.max_jurors_per_dispute
            &&& summon_error(s, id, random) is None ==> after.summoned(id)
                <= s.config.max_jurors_per_dispute
            &&& forall|d: Seq<u8>|
                after.on_duty(d, id) ==> s.on_duty(d, id) || (summon_error(s, id, random) is None
                    && fresh.contains(d))
        }),
{
    lemma_summoned_below(s, id, random, 256);
}

/// Beyond the end of the roster nobody is summoned.
proof fn lemma_summoned_beyond_roster(s: CourtView, id: ContentIdView, random: Seq<u8>, upto: nat)
    requires
        s.jurors.len() <= upto,
    ensures
        summoned_below(s, id, random, upto) == summoned_below(s, id, random, s.jurors.len()),
    decreases upto,
{
    if upto > s.jurors.len() {
        lemma_summoned_beyond_roster(s, id, random, (upto - 1) as nat);
    }
}

/// Marks each juror of `jurors` as on duty for `content_id`.
fn assign_duty(duty: &mut Table<(Did, ContentId), bool>, jurors: &Vec<Did>, content_id: &ContentId)
    requires
        old(duty).wf(),
    ensures
        final(duty).wf(),
        final(duty).model() == with_duty(old(duty).model(), jurors.deep_view(), content_id@),
{
    let ghost before = duty.model();
    let ghost all = jurors.deep_view();
    let ghost id = content_id@;
    let mut i: usize = 0;
    assert(duty.model() =~= with_duty(before, all.take(0), id));
    while i < jurors.len()
        invariant
            i <= jurors@.len(),
            duty.wf(),
            all == jurors.deep_view(),
            id == content_id@,
            duty.model() == with_duty(before, all.take(i as int), id),
        decreases jurors@.len() - i,
    {
        let ghost seen = all.take(i as int);
        let ghost next = all.take(i + 1);
        assert forall|d: Seq<u8>| next.contains(d) <==> (seen.contains(d) || d == all[i as int]) by {
            if next.contains(d) {
                let k = choose|k: int| 0 <= k < next.len() && next[k] == d;
                if k < i {
                    assert(seen[k] == d);
                }
            }
            if seen.contains(d) {
                let k = choose|k: int| 0 <= k < seen.len() && seen[k] == d;
                assert(next[k] == d);
            }
            assert(next[i as int] == all[i as int]);
        }
        duty.insert((clone_did(&jurors[i]), *content_id), true);
        assert(duty.model() =~= with_duty(before, next, id));
        i += 1;
    }
    assert(all.take(jurors@.len() as int) =~= all);
}

impl Pallet {
    /// The jurors that the draw `random` newly summons to `content_id`.
    fn draw(&self, content_id: &ContentId, random: &[u8], count: u32) -> (fresh: Vec<Did>)
        requires
            self.wf(),
            count == self@.summoned(content_id@),
            count <= self@.config.max_jurors_per_dispute,
        ensures
            fresh.deep_view() == newly_summoned(self@, content_id@, random@),
            fresh@.len() <= 256,
    {
        let room = self.config.max_jurors_per_dispute - count;
        let mut fresh: Vec<Did> = Vec::new();
        let mut p: usize = 0;
        assert(fresh.deep_view() =~= Seq::<Seq<u8>>::empty());
        while p < self.jurors.len() && p < 256
            invariant
                self.wf(),
                p <= self.jurors@.len(),
                p <= 256,
                count == self@.summoned(content_id@),
                room == self@.config.max_jurors_per_dispute - count,
                fresh@.len() <= p,
                fresh.deep_view() == summoned_below(self@, content_id@, random@, p as nat),
            decreases 256 - p,
        {
            let ghost earlier = fresh.deep_view();
            if contains_byte(random, p as u8) && fresh.len() < room as usize {
                let juror = clone_did(&self.jurors[p]);
                let key = (juror, *content_id);
                if !self.jury_duty.contains_key(&key) {
                    fresh.push(key.0);
                    assert(fresh.deep_view() =~= earlier.push(self@.jurors[p as int]));
                }
            }
            p += 1;
        }
        proof {
            if p < 256 {
                lemma_summoned_beyond_roster(self@, content_id@, random@, 256);
            }
        }
        fresh
    }

    /// Summons jurors to the dispute `content_id` by the draw `random`: each
    /// byte of the draw names a position of the roster.  Fails where more
    /// jurors were summoned already than a dispute may have.
    pub fn summon_jurors(&mut self, content_id: &ContentId, random: &[u8]) -> (r: Result<(), Error>)
        requires
            old(self).wf(),
        ensures
            final(self).wf(),
            match r {
                Ok(()) => summon_error(old(self)@, content_id@, random@) is None && final(self)@
                    == summon_next(old(self)@, content_id@, random@),
                Err(e) => summon_error(old(self)@, content_id@, random@) == Some(e) && final(self)@
                    == old(self)@,
            },
    {
        let ghost s0 = self@;
        let ghost id = content_id@;
        let cap = self.config.max_jurors_per_dispute;
        let count: u32 = match self.jury_summoned.get(content_id) {
            Some(n) => *n,
            None => 0,
        };
        if count > cap {
            return Err(Error::MaxJurorsReached);
        }
        let fresh = self.draw(content_id, random, count);
        proof {
            lemma_summoned_below(s0, id, random@, 256);
        }
        if fresh.len() == 0 {
            return Ok(());
        }
        let selected_len = match self.jury_selection.get(content_id) {
            Some(list) => list.len(),
            None => 0,
        };
        assert(selected_len == s0.selection(id).len());
        if fresh.len() > cap as usize - selected_len {
            return Err(Error::StorageOverflow);
        }
        assign_duty(&mut self.jury_duty, &fresh, content_id);
        let mut selected = match self.jury_selection.remove(content_id) {
            Some(list) => list,
            None => Vec::new(),
        };
        assert(selected.deep_view() =~= s0.selection(id));
        let mut more = clone_dids(&fresh);
        let ghost head = selected.deep_view();
        let ghost tail = more.deep_view();
        selected.append(&mut more);
        assert(selected.deep_view() =~= head + tail);
        self.jury_selection.insert(*content_id, selected);
        self.jury_summoned.insert(*content_id, count + fresh.len() as u32);
        proof {
            assert(self@.jury_selection =~= s0.jury_selection.insert(
                id,
                s0.selection(id) + fresh.deep_view(),
            ));
            assert(self@.disputes == s0.disputes);
            assert(self@.escalated_sessions == s0.escalated_sessions);
            assert forall|other: ContentIdView| #[trigger]
                self@.jury_selection.contains_key(other) implies self@.jury_selection[other].len()
                <= self@.config.max_jurors_per_dispute by {
                if other != id {
                    assert(s0.jury_selection.contains_key(other));
                }
            }
        }
        Ok(())
    }

    /// Summons jurors as [`Pallet::summon_jurors`] does, for any caller.
    pub fn summon_jurors_ext(&mut self, content_id: ContentId, random: &[u8]) -> (r: Result<
        (),
        Error,
    >)
        requires
            old(self).wf(),
        ensures
            final(self).wf(),
            match r {
                Ok(()) => summon_error(old(self)@, content_id@, random@) is None && final(self)@
                    == summon_next(old(self)@, content_id@, random@),
                Err(e) => summon_error(old(self)@, content_id@, random@) == Some(e) && final(self)@
                    == old(self)@,
            },
    {
        self.summon_jurors(&content_id, random)
    }
}

} // verus!
