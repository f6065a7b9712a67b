//! Snapshots on their way to other devices.
use vstd::arithmetic::power2::{lemma2_to64, lemma_pow2_unfold, pow2};
use vstd::prelude::*;

use crate::identity::{random_bytes, PeerId, Signature};
use crate::net::ack::{ack_check, Ack};
use crate::net::auth::{random16, shows_time};
use crate::net::clock::{format_time, parse_time, time_of, time_round_trip, LAST_FOUR_DIGIT_MS};
use crate::net::error::Error;
use crate::order::{char_rank, char_rank_injective, lex_before, Key};
use crate::table::{ascending, holds_at, map_of_at, map_of_update, Table};
use crate::text::same_text;
use crate::util::hex_text;

verus! {

/// How long a snapshot waits to be sent.
pub const OUTBOX_TTL_MS: u64 = 604_800_000;

/// After so many attempts nothing more is tried.
pub const MAX_ATTEMPTS: u32 = 20;

/// How far a snapshot has got.
#[derive(Clone, Copy, Debug, PartialEq, Eq, Structural)]
pub enum OutboxState {
    Queued,
    Healthcheck,
    Offered,
    Transferring,
    AwaitingAck,
    Acked,
    Failed,
    Cancelled,
    Expired,
}

/// Nothing more happens to a snapshot in this state.
pub open spec fn is_terminal(s: OutboxState) -> bool {
    s is Acked || s is Cancelled || s is Expired
}

/// One step of a delivery may follow the other.
pub open spec fn legal_step(from: OutboxState, to: OutboxState) -> bool {
    match to {
        OutboxState::Healthcheck => from is Queued || from is Offered || from is Transferring
            || from is AwaitingAck,
        OutboxState::Offered => from is Healthcheck,
        OutboxState::Transferring => from is Offered,
        OutboxState::AwaitingAck => from is Transferring,
        OutboxState::Queued => from is Healthcheck || from is Offered || from is Transferring
            || from is AwaitingAck,
        _ => false,
    }
}

impl OutboxState {
    /// Whether nothing more happens in this state.
    pub fn terminal(self) -> (r: bool)
        ensures
            r == is_terminal(self),
    {
        match self {
            OutboxState::Acked => true,
            OutboxState::Cancelled => true,
            OutboxState::Expired => true,
            _ => false,
        }
    }
}

fn is_legal(from: OutboxState, to: OutboxState) -> (r: bool)
    ensures
        r == legal_step(from, to),
{
    let busy = from == OutboxState::Offered || from == OutboxState::Transferring || from
        == OutboxState::AwaitingAck;
    match to {
        OutboxState::Healthcheck => from == OutboxState::Queued || busy,
        OutboxState::Offered => from == OutboxState::Healthcheck,
        OutboxState::Transferring => from == OutboxState::Offered,
        OutboxState::AwaitingAck => from == OutboxState::Transferring,
        OutboxState::Queued => from == OutboxState::Healthcheck || busy,
        _ => false,
    }
}

/// A snapshot on its way.
#[derive(Clone, Debug, PartialEq, Eq)]
pub struct OutboxEntry {
    pub id: String,
    pub offer_id: String,
    pub peer_id: PeerId,
    pub snapshot_id: crate::cas::Hash,
    pub state: OutboxState,
    pub created_at: String,
    pub updated_at: String,
    pub attempts: u32,
    pub last_error: Option<String>,
    pub ack_sig: Option<Signature>,
    pub next_attempt_at: String,
    pub manifest_raw: Vec<u8>,
}

/// All snapshots on their way, by id.
#[derive(Clone, Debug, PartialEq, Eq)]
pub struct Outbox {
    pub entries: Table<String, OutboxEntry>,
}

/// How long to wait after so many attempts: a second, and twice as long each time, up to five
/// minutes.
pub open spec fn backoff(attempts: nat) -> nat
    decreases attempts,
{
    if attempts <= 1 {
        1000
    } else {
        let twice = 2 * backoff((attempts - 1) as nat);
        if twice < 300_000 {
            twice
        } else {
            300_000
        }
    }
}

fn backoff_ms(attempts: u32) -> (r: u64)
    ensures
        r == backoff(attempts as nat),
        1000 <= r <= 300_000,
{
    let mut base: u64 = 1000;
    let mut i: u32 = 1;
    while i < attempts && base < 300_000
        invariant
            1 <= i,
            i <= attempts || (attempts == 0 && i == 1),
            base == backoff(i as nat),
            1000 <= base <= 300_000,
        decreases attempts - i,
    {
        base = if 2 * base < 300_000 {
            2 * base
        } else {
            300_000
        };
        i += 1;
    }
    proof {
        if attempts == 0 {
            assert(i == 1);
            assert(backoff(0) == backoff(1));
        } else if i < attempts {
            backoff_stays(i as nat, attempts as nat);
        }
    }
    base
}

proof fn backoff_stays(a: nat, b: nat)
    requires
        1 <= a <= b,
        backoff(a) == 300_000,
    ensures
        backoff(b) == 300_000,
    decreases b,
{
    if a < b {
        backoff_stays(a, (b - 1) as nat);
    }
}

/// `Rng::gen_range` of `rand` over 80 to 120, both included.
#[verifier::external_body]
fn jitter_percent() -> (r: u64)
    ensures
        80 <= r <= 120,
{
    rand::Rng::gen_range(&mut rand::thread_rng(), 80..=120)
}

/// The age of something made at a time that can be read; otherwise it is older than anything.
pub open spec fn age(created: Seq<char>, now: u64) -> int {
    match time_of(created) {
        Ok(t) => if now >= t {
            now - t
        } else {
            0
        },
        Err(_) => u64::MAX as int,
    }
}

fn age_ms(created: &str, now: u64) -> (r: u64)
    ensures
        r == age(created@, now),
{
    match parse_time(created) {
        Ok(t) => now.saturating_sub(t),
        Err(_) => u64::MAX,
    }
}

/// The entry waits to be tried, and its time has come.
pub open spec fn is_due(e: OutboxEntry, now: u64) -> bool {
    &&& !is_terminal(e.state)
    &&& !(e.state is Failed)
    &&& time_of(e.next_attempt_at@) matches Ok(t) && t <= now
}

/// The ids of the entries that are due, in order.
pub open spec fn due_ids(s: Seq<(String, OutboxEntry)>, now: u64) -> Seq<String>
    decreases s.len(),
{
    if s.len() == 0 {
        Seq::empty()
    } else {
        let before = due_ids(s.drop_last(), now);
        if is_due(s.last().1, now) {
            before.push(s.last().1.id)
        } else {
            before
        }
    }
}

/// The id is in the list.
pub open spec fn lists_id(s: Seq<String>, id: Seq<char>) -> bool {
    exists|i: int| 0 <= i < s.len() && (#[trigger] s[i])@ == id
}

/// The list holds the ids of the entries that are due and no others, each once, in ascending order.
pub open spec fn lists_due(o: Outbox, now: u64, s: Seq<String>) -> bool {
    &&& forall|id: Seq<char>| #[trigger] lists_id(s, id) <==> o.has(id) && is_due(o.at(id), now)
    &&& forall|i: int, j: int|
        0 <= i < j < s.len() ==> lex_before(
            char_rank((#[trigger] s[i])@),
            char_rank((#[trigger] s[j])@),
        )
}

/// One of the first entries is due and has this id.
spec fn due_at(s: Seq<(String, OutboxEntry)>, n: int, now: u64, id: String) -> bool {
    exists|k: int| 0 <= k < n && is_due((#[trigger] s[k]).1, now) && s[k].1.id == id
}

/// The same of the first entries of an outbox.
spec fn lists_first(s: Seq<(String, OutboxEntry)>, n: int, now: u64) -> bool {
    let ids = due_ids(s.take(n), now);
    &&& forall|i: int|
        0 <= i < ids.len() ==> due_at(s, n, now, #[trigger] ids[i])
    &&& forall|k: int| 0 <= k < n && is_due((#[trigger] s[k]).1, now) ==> lists_id(ids, s[k].1.id@)
    &&& forall|i: int, j: int|
        0 <= i < j < ids.len() ==> lex_before(
            char_rank((#[trigger] ids[i])@),
            char_rank((#[trigger] ids[j])@),
        )
}

proof fn first_are_listed(s: Seq<(String, OutboxEntry)>, n: int, now: u64)
    requires
        ascending(s),
        forall|k: int| 0 <= k < s.len() ==> char_rank((#[trigger] s[k]).1.id@) == s[k].0.rank(),
        0 <= n <= s.len(),
    ensures
        lists_first(s, n, now),
    decreases n,
{
    let ids = due_ids(s.take(n), now);
    if n == 0 {
        assert(ids.len() == 0);
    } else {
        first_are_listed(s, n - 1, now);
        let before = due_ids(s.take(n - 1), now);
        assert(s.take(n).drop_last() =~= s.take(n - 1));
        assert(s.take(n).last() == s[n - 1]);
        if is_due(s[n - 1].1, now) {
            assert(ids == before.push(s[n - 1].1.id));
            assert forall|i: int| 0 <= i < ids.len() implies due_at(
                s,
                n,
                now,
                #[trigger] ids[i],
            ) by {
                if i < before.len() {
                    assert(due_at(s, n - 1, now, before[i]));
                    let k = choose|k: int|
                        0 <= k < n - 1 && is_due((#[trigger] s[k]).1, now) && s[k].1.id == before[i];
                    assert(s[k].1.id == ids[i]);
                } else {
                    assert(s[n - 1].1.id == ids[i]);
                }
            }
            assert forall|k: int| 0 <= k < n && is_due((#[trigger] s[k]).1, now) implies lists_id(
                ids,
                s[k].1.id@,
            ) by {
                if k < n - 1 {
                    assert(lists_id(before, s[k].1.id@));
                    let i = choose|i: int| 0 <= i < before.len() && (#[trigger] before[i])@ == s[k].1.id@;
                    assert(ids[i]@ == s[k].1.id@);
                } else {
                    assert(ids[before.len() as int]@ == s[k].1.id@);
                }
            }
            assert forall|i: int, j: int| 0 <= i < j < ids.len() implies lex_before(
                char_rank((#[trigger] ids[i])@),
                char_rank((#[trigger] ids[j])@),
            ) by {
                assert(ids[i] == before[i]);
                if j < before.len() {
                    assert(ids[j] == before[j]);
                } else {
                    assert(due_at(s, n - 1, now, before[i]));
                    let k = choose|k: int|
                        0 <= k < n - 1 && is_due((#[trigger] s[k]).1, now) && s[k].1.id == before[i];
                    assert(lex_before(s[k].0.rank(), s[n - 1].0.rank()));
                }
            }
        } else {
            assert(ids == before);
            assert forall|i: int| 0 <= i < ids.len() implies due_at(
                s,
                n,
                now,
                #[trigger] ids[i],
            ) by {
                assert(due_at(s, n - 1, now, before[i]));
                let k = choose|k: int|
                    0 <= k < n - 1 && is_due((#[trigger] s[k]).1, now) && s[k].1.id == before[i];
                assert(s[k].1.id == ids[i]);
            }
        }
    }
}

/// Of an outbox whose entries stand under their own ids, `pending_ids` lists the id of each entry
/// that is due and no other, in ascending order.
pub proof fn due_are_listed(o: Outbox, now: u64)
    requires
        o.wf(),
        o.own_ids(),
    ensures
        lists_due(o, now, due_ids(o.entries.entries@, now)),
{
    let s = o.entries.entries@;
    let ids = due_ids(s, now);
    assert forall|k: int| 0 <= k < s.len() implies char_rank((#[trigger] s[k]).1.id@)
        == s[k].0.rank() by {
        map_of_at(s, k);
        assert(o.entries@.dom().contains(s[k].0.rank()));
    }
    first_are_listed(s, s.len() as int, now);
    assert(s.take(s.len() as int) =~= s);
    assert forall|id: Seq<char>| #[trigger] lists_id(ids, id) <==> o.has(id) && is_due(
        o.at(id),
        now,
    ) by {
        if lists_id(ids, id) {
            let i = choose|i: int| 0 <= i < ids.len() && (#[trigger] ids[i])@ == id;
            assert(due_at(s, s.len() as int, now, ids[i]));
            let k = choose|k: int|
                0 <= k < s.len() && is_due((#[trigger] s[k]).1, now) && s[k].1.id == ids[i];
            map_of_at(s, k);
        }
        if o.has(id) && is_due(o.at(id), now) {
            let k = choose|k: int| holds_at(s, char_rank(id), k);
            map_of_at(s, k);
            char_rank_injective(s[k].1.id@, id);
            assert(is_due(s[k].1, now));
        }
    }
}

/// An entry that has waited too long.
pub open spec fn overdue(e: OutboxEntry, now: u64) -> bool {
    e.state is Queued && age(e.created_at@, now) > OUTBOX_TTL_MS
}

/// The entry with another state, at another time.
pub open spec fn moved(old_e: OutboxEntry, new_e: OutboxEntry, state: OutboxState, now: u64) -> bool {
    &&& new_e == (OutboxEntry { state, updated_at: new_e.updated_at, ..old_e })
    &&& shows_time(now as int, new_e.updated_at@)
}

/// The outbox after an entry was to move one step, and what was answered.
pub open spec fn stepped(
    before: Outbox,
    after: Outbox,
    id: Seq<char>,
    state: OutboxState,
    now: u64,
    r: Result<(), Error>,
) -> bool {
    if !before.has(id) {
        r == Err::<(), Error>(Error::Protocol("unknown outbox id")) && after.entries@
            == before.entries@
    } else if !legal_step(before.at(id).state, state) {
        r == Err::<(), Error>(Error::Protocol("illegal outbox transition")) && after.entries@
            == before.entries@
    } else {
        r is Ok && after.entries@ == before.entries@.insert(char_rank(id), after.at(id)) && moved(
            before.at(id),
            after.at(id),
            state,
            now,
        )
    }
}

/// The outbox after what has waited too long was given up.
pub open spec fn given_up(before: Outbox, after: Outbox, now: u64) -> bool {
    &&& after.entries@.dom() == before.entries@.dom()
    &&& forall|k: Seq<int>| #[trigger]
        after.entries@.dom().contains(k) ==> if overdue(before.entries@[k], now) {
            moved(before.entries@[k], after.entries@[k], OutboxState::Expired, now)
        } else {
            after.entries@[k] == before.entries@[k]
        }
}

/// The outbox after a receipt came in for an entry, and what was answered.
pub open spec fn ack_taken(
    before: Outbox,
    after: Outbox,
    id: Seq<char>,
    ack: Ack,
    local_peer: PeerId,
    now: u64,
    r: Result<bool, Error>,
) -> bool {
    let e = before.at(id);
    let check = ack_check(ack, local_peer, e.peer_id);
    if !before.has(id) {
        r == Err::<bool, Error>(Error::Protocol("unknown outbox id")) && after.entries@
            == before.entries@
    } else if !awaits(e, ack) {
        r == Ok::<bool, Error>(false) && after.entries@ == before.entries@
    } else if check is Err {
        r == Err::<bool, Error>(check->Err_0) && after.entries@ == before.entries@
    } else {
        r == Ok::<bool, Error>(true) && after.entries@ == before.entries@.insert(
            char_rank(id),
            after.at(id),
        ) && moved(
            OutboxEntry { ack_sig: Some(ack.sig), ..e },
            after.at(id),
            OutboxState::Acked,
            now,
        )
    }
}

/// One more attempt can be counted, and the time of the next one fits, where there is a next one.
pub open spec fn can_fail(e: OutboxEntry, now: u64) -> bool {
    &&& e.attempts < u32::MAX
    &&& e.attempts + 1 < MAX_ATTEMPTS ==> now <= u64::MAX - 360_000
}

/// The outbox after it was noted that an entry lies with a relay, and what was answered.
pub open spec fn deposited(
    before: Outbox,
    after: Outbox,
    id: Seq<char>,
    now: u64,
    r: Result<(), Error>,
) -> bool {
    if !before.has(id) {
        r == Err::<(), Error>(Error::Protocol("unknown outbox id")) && after.entries@
            == before.entries@
    } else if is_terminal(before.at(id).state) {
        r is Ok && after.entries@ == before.entries@
    } else {
        let new_e = after.at(id);
        &&& r is Ok
        &&& after.entries@ == before.entries@.insert(char_rank(id), new_e)
        &&& moved(
            OutboxEntry { next_attempt_at: new_e.next_attempt_at, ..before.at(id) },
            new_e,
            OutboxState::AwaitingAck,
            now,
        )
        &&& shows_time(
            if now + 60_000 > u64::MAX {
                u64::MAX as int
            } else {
                now + 60_000
            },
            new_e.next_attempt_at@,
        )
    }
}

impl Outbox {
    /// The table is in order.
    pub open spec fn wf(&self) -> bool {
        self.entries.wf()
    }

    /// Each entry stands under its own id.
    pub open spec fn own_ids(&self) -> bool {
        forall|k: Seq<int>| #[trigger]
            self.entries@.dom().contains(k) ==> char_rank(self.entries@[k].id@) == k
    }

    /// The entry of an id.
    pub open spec fn at(&self, id: Seq<char>) -> OutboxEntry {
        self.entries@[char_rank(id)]
    }

    /// There is an entry with this id.
    pub open spec fn has(&self, id: Seq<char>) -> bool {
        self.entries@.dom().contains(char_rank(id))
    }

    /// An outbox with what was read from its file.
    pub fn open(entries: Table<String, OutboxEntry>) -> (r: Self)
        ensures
            r.entries == entries,
    {
        Outbox { entries }
    }

    /// The entry of an id.
    pub fn get(&self, id: &str) -> (r: Option<&OutboxEntry>)
        requires
            self.wf(),
        ensures
            r is Some <==> self.has(id@),
            r matches Some(e) ==> *e == self.at(id@),
    {
        let key = id.to_owned();
        self.entries.get(&key)
    }

    /// All entries, in the order of their ids.
    pub fn entries(&self) -> (r: &Table<String, OutboxEntry>)
        ensures
            *r == self.entries,
    {
        &self.entries
    }

    fn replace(&mut self, id: &str, e: OutboxEntry)
        requires
            old(self).wf(),
        ensures
            final(self).wf(),
            final(self).entries@ == old(self).entries@.insert(char_rank(id@), e),
    {
        self.entries.insert(id.to_owned(), e);
    }

    fn take(&mut self, id: &str) -> (r: Option<OutboxEntry>)
        requires
            old(self).wf(),
        ensures
            final(self).wf(),
            r is Some <==> old(self).has(id@),
            r matches Some(e) ==> e == old(self).at(id@),
            r is Some ==> final(self).entries@ == old(self).entries@.remove(char_rank(id@)),
            r is None ==> final(self).entries@ == old(self).entries@,
    {
        let key = id.to_owned();
        let ghost before = self.entries@;
        let r = self.entries.remove(&key);
        assert(r is None ==> self.entries@ =~= before);
        r
    }

    /// Takes over what a session on its own copy did to one entry, unless the entry was given up
    /// meanwhile.
    pub fn sync_entry_from(&mut self, other: Outbox, id: &str) -> (r: Result<(), Error>)
        requires
            old(self).wf(),
            other.wf(),
        ensures
            final(self).wf(),
            old(self).own_ids() && other.own_ids() ==> final(self).own_ids(),
            ({
                let given_up = old(self).has(id@) && (old(self).at(id@).state is Cancelled || old(
                    self,
                ).at(id@).state is Expired);
                &&& r == if given_up || other.has(id@) {
                    Ok::<(), Error>(())
                } else {
                    Err(Error::Protocol("unknown outbox id"))
                }
                &&& final(self).entries@ == if !given_up && other.has(id@) {
                    old(self).entries@.insert(char_rank(id@), other.at(id@))
                } else {
                    old(self).entries@
                }
            }),
    {
        match self.get(id) {
            Some(e) => {
                if e.state == OutboxState::Cancelled || e.state == OutboxState::Expired {
                    return Ok(());
                }
            },
            None => {},
        }
        let mut other = other;
        match other.take(id) {
            Some(e) => {
                self.replace(id, e);
                Ok(())
            },
            None => Err(Error::Protocol("unknown outbox id")),
        }
    }

    /// Adds a snapshot under given ids.
    pub fn enqueue_with(
        &mut self,
        id: String,
        offer_id: String,
        peer_id: PeerId,
        snapshot_id: crate::cas::Hash,
        manifest_raw: Vec<u8>,
        now: u64,
    )
        requires
            old(self).wf(),
        ensures
            final(self).wf(),
            old(self).own_ids() ==> final(self).own_ids(),
            final(self).entries@ == old(self).entries@.insert(
                char_rank(id@),
                final(self).at(id@),
            ),
            queued(final(self).at(id@), id@, offer_id@, peer_id, snapshot_id, manifest_raw@, now),
    {
        let ghost before = self.entries@;
        let key = id.clone();
        let e = OutboxEntry {
            id,
            offer_id,
            peer_id,
            snapshot_id,
            state: OutboxState::Queued,
            created_at: format_time(now),
            updated_at: format_time(now),
            attempts: 0,
            last_error: None,
            ack_sig: None,
            next_attempt_at: format_time(now),
            manifest_raw,
        };
        self.entries.insert(key, e);
        assert(self.entries@[char_rank(id@)] == e);
    }

    /// Adds a snapshot under an id of its own, and returns the id.
    pub fn enqueue(
        &mut self,
        peer_id: PeerId,
        snapshot_id: crate::cas::Hash,
        manifest_raw: Vec<u8>,
        now: u64,
    ) -> (r: String)
        requires
            old(self).wf(),
        ensures
            final(self).wf(),
            old(self).own_ids() ==> final(self).own_ids(),
            exists|raw: [u8; 16]| r@ == hex_text(#[trigger] raw@),
            final(self).entries@ == old(self).entries@.insert(char_rank(r@), final(self).at(r@)),
            exists|offer: [u8; 16]| #[trigger]
                queued(
                    final(self).at(r@),
                    r@,
                    hex_text(offer@),
                    peer_id,
                    snapshot_id,
                    manifest_raw@,
                    now,
                ),
    {
        let id = random16();
        let offer_raw = random_bytes::<16>();
        let offer_id = crate::util::hex_encode(offer_raw.as_slice());
        self.enqueue_with(id.clone(), offer_id, peer_id, snapshot_id, manifest_raw, now);
        assert(queued(
            self.at(id@),
            id@,
            hex_text(offer_raw@),
            peer_id,
            snapshot_id,
            manifest_raw@,
            now,
        ));
        id
    }

    /// The id of the first entry with an offer; nothing where there is none.
    pub fn id_of_offer(&self, offer_id: &str) -> (r: Option<String>)
        ensures
            ({
                let s = self.entries.entries@;
                let at = offer_at(s, offer_id@, 0);
                &&& r is Some <==> at < s.len()
                &&& r matches Some(id) ==> id == s[at].1.id
            }),
    {
        let s = &self.entries.entries;
        let mut i: usize = 0;
        while i < s.len()
            invariant
                s@ == self.entries.entries@,
                i <= s@.len(),
                offer_at(s@, offer_id@, 0) == offer_at(s@, offer_id@, i as int),
            decreases s.len() - i,
        {
            if same_text(s[i].1.offer_id.as_str(), offer_id) {
                return Some(s[i].1.id.clone());
            }
            i += 1;
        }
        None
    }

    /// The ids of the entries that are due, in ascending order.
    pub fn pending_ids(&self, now: u64) -> (r: Vec<String>)
        ensures
            r@ == due_ids(self.entries.entries@, now),
            self.wf() && self.own_ids() ==> lists_due(*self, now, r@),
    {
        let ghost s = self.entries.entries@;
        let mut out: Vec<String> = Vec::new();
        let mut i: usize = 0;
        assert(s.take(0) =~= Seq::<(String, OutboxEntry)>::empty());
        while i < self.entries.entries.len()
            invariant
                s == self.entries.entries@,
                i <= s.len(),
                out@ == due_ids(s.take(i as int), now),
            decreases self.entries.entries.len() - i,
        {
            proof {
                assert(s.take(i + 1).drop_last() =~= s.take(i as int));
                assert(s.take(i + 1).last() == s[i as int]);
            }
            let e = &self.entries.entries[i].1;
            if !e.state.terminal() && e.state != OutboxState::Failed {
                match parse_time(e.next_attempt_at.as_str()) {
                    Ok(t) => {
                        if t <= now {
                            out.push(e.id.clone());
                        }
                    },
                    Err(_) => {},
                }
            }
            i += 1;
        }
        assert(s.take(i as int) =~= s);
        proof {
            if self.wf() && self.own_ids() {
                due_are_listed(*self, now);
            }
        }
        out
    }

    /// Moves an entry one step.
    pub fn transition(&mut self, id: &str, state: OutboxState, now: u64) -> (r: Result<(), Error>)
        requires
            old(self).wf(),
        ensures
            final(self).wf(),
            old(self).own_ids() ==> final(self).own_ids(),
            stepped(*old(self), *final(self), id@, state, now, r),
    {
        match self.get(id) {
            None => {
                return Err(Error::Protocol("unknown outbox id"));
            },
            Some(e) => {
                if !is_legal(e.state, state) {
                    return Err(Error::Protocol("illegal outbox transition"));
                }
            },
        }
        self.set_state(id, state, now);
        Ok(())
    }

    fn set_state(&mut self, id: &str, state: OutboxState, now: u64)
        requires
            old(self).wf(),
            old(self).has(id@),
        ensures
            final(self).wf(),
            old(self).own_ids() ==> final(self).own_ids(),
            final(self).entries@ == old(self).entries@.insert(
                char_rank(id@),
                final(self).at(id@),
            ),
            moved(old(self).at(id@), final(self).at(id@), state, now),
    {
        let ghost before = self.entries@;
        match self.take(id) {
            Some(e) => {
                let mut e = e;
                e.state = state;
                e.updated_at = format_time(now);
                self.replace(id, e);
                assert(self.entries@ =~= before.insert(char_rank(id@), e));
            },
            None => {},
        }
    }

    /// Takes note of an attempt that failed; `pct` spreads the next one.
    pub fn fail_attempt_with(&mut self, id: &str, error: String, now: u64, pct: u64) -> (r: Result<
        (),
        Error,
    >)
        requires
            old(self).wf(),
            80 <= pct <= 120,
            old(self).has(id@) ==> can_fail(old(self).at(id@), now),
        ensures
            final(self).wf(),
            old(self).own_ids() ==> final(self).own_ids(),
            if !old(self).has(id@) {
                r == Err::<(), Error>(Error::Protocol("unknown outbox id"))
                    && final(self).entries@ == old(self).entries@
            } else {
                r is Ok && final(self).entries@ == old(self).entries@.insert(
                    char_rank(id@),
                    final(self).at(id@),
                ) && failed_once(old(self).at(id@), final(self).at(id@), error, now, pct as int)
            },
    {
        let ghost before = self.entries@;
        match self.take(id) {
            None => Err(Error::Protocol("unknown outbox id")),
            Some(e) => {
                let mut e = e;
                e.attempts = e.attempts + 1;
                e.last_error = Some(error);
                if e.attempts >= MAX_ATTEMPTS {
                    e.state = OutboxState::Failed;
                } else {
                    e.state = OutboxState::Queued;
                    let base = backoff_ms(e.attempts);
                    assert(base * pct <= 36_000_000) by (nonlinear_arith)
                        requires
                            base <= 300_000,
                            pct <= 120,
                    ;
                    e.next_attempt_at = format_time(now + base * pct / 100);
                }
                e.updated_at = format_time(now);
                self.replace(id, e);
                assert(self.entries@ =~= before.insert(char_rank(id@), e));
                Ok(())
            },
        }
    }

    /// Takes note of an attempt that failed.
    pub fn fail_attempt(&mut self, id: &str, error: String, now: u64) -> (r: Result<(), Error>)
        requires
            old(self).wf(),
            old(self).has(id@) ==> can_fail(old(self).at(id@), now),
        ensures
            final(self).wf(),
            old(self).own_ids() ==> final(self).own_ids(),
            if !old(self).has(id@) {
                r == Err::<(), Error>(Error::Protocol("unknown outbox id"))
                    && final(self).entries@ == old(self).entries@
            } else {
                r is Ok && final(self).entries@ == old(self).entries@.insert(
                    char_rank(id@),
                    final(self).at(id@),
                ) && exists|pct: int|
                    80 <= pct <= 120 && #[trigger] failed_once(
                        old(self).at(id@),
                        final(self).at(id@),
                        error,
                        now,
                        pct,
                    )
            },
    {
        let pct = jitter_percent();
        self.fail_attempt_with(id, error, now, pct)
    }

    /// Starts over under another offer id.
    pub fn retry_fresh_with(&mut self, id: &str, offer_id: String, now: u64) -> (r: Result<
        (),
        Error,
    >)
        requires
            old(self).wf(),
        ensures
            final(self).wf(),
            old(self).own_ids() ==> final(self).own_ids(),
            if !old(self).has(id@) {
                r == Err::<(), Error>(Error::Protocol("unknown outbox id"))
                    && final(self).entries@ == old(self).entries@
            } else {
                r is Ok && final(self).entries@ == old(self).entries@.insert(
                    char_rank(id@),
                    final(self).at(id@),
                ) && started_over(old(self).at(id@), final(self).at(id@), offer_id@, now)
            },
    {
        let ghost before = self.entries@;
        match self.take(id) {
            None => Err(Error::Protocol("unknown outbox id")),
            Some(e) => {
                let mut e = e;
                e.offer_id = offer_id;
                e.state = OutboxState::Queued;
                e.attempts = 0;
                e.ack_sig = None;
                e.updated_at = format_time(now);
                e.next_attempt_at = format_time(now);
                self.replace(id, e);
                assert(self.entries@ =~= before.insert(char_rank(id@), e));
                Ok(())
            },
        }
    }

    /// Starts over under an offer id of its own, which it returns.
    pub fn retry_fresh(&mut self, id: &str, now: u64) -> (r: Result<String, Error>)
        requires
            old(self).wf(),
        ensures
            final(self).wf(),
            old(self).own_ids() ==> final(self).own_ids(),
            match r {
                Err(e) => !old(self).has(id@) && e == Error::Protocol("unknown outbox id")
                    && final(self).entries@ == old(self).entries@,
                Ok(offer) => {
                    &&& old(self).has(id@)
                    &&& exists|raw: [u8; 16]| offer@ == hex_text(#[trigger] raw@)
                    &&& final(self).entries@ == old(self).entries@.insert(
                        char_rank(id@),
                        final(self).at(id@),
                    )
                    &&& started_over(old(self).at(id@), final(self).at(id@), offer@, now)
                },
            },
    {
        let offer = random16();
        match self.retry_fresh_with(id, offer.clone(), now) {
            Ok(()) => Ok(offer),
            Err(e) => Err(e),
        }
    }

    /// Takes in a receipt; tells whether it was the one that was waited for.
    pub fn apply_ack(&mut self, id: &str, ack: &Ack, local_peer: PeerId, now: u64) -> (r: Result<
        bool,
        Error,
    >)
        requires
            old(self).wf(),
        ensures
            final(self).wf(),
            old(self).own_ids() ==> final(self).own_ids(),
            ack_taken(*old(self), *final(self), id@, *ack, local_peer, now, r),
    {
        let ghost before = self.entries@;
        match self.get(id) {
            None => {
                return Err(Error::Protocol("unknown outbox id"));
            },
            Some(e) => {
                if !(e.state == OutboxState::AwaitingAck || e.state == OutboxState::Healthcheck)
                    || !same_text(e.offer_id.as_str(), ack.offer_id.as_str())
                    || !e.snapshot_id.same(&ack.snapshot_id) {
                    return Ok(false);
                }
                match ack.verify(local_peer, e.peer_id) {
                    Ok(()) => {},
                    Err(x) => {
                        return Err(x);
                    },
                }
            },
        }
        match self.take(id) {
            Some(e) => {
                let mut e = e;
                e.state = OutboxState::Acked;
                e.ack_sig = Some(ack.sig);
                e.updated_at = format_time(now);
                self.replace(id, e);
                assert(self.entries@ =~= before.insert(char_rank(id@), e));
            },
            None => {},
        }
        Ok(true)
    }

    /// Takes note that a snapshot lies with a relay.
    pub fn mark_relay_deposited(&mut self, id: &str, now: u64) -> (r: Result<(), Error>)
        requires
            old(self).wf(),
        ensures
            final(self).wf(),
            old(self).own_ids() ==> final(self).own_ids(),
            deposited(*old(self), *final(self), id@, now, r),
    {
        let ghost before = self.entries@;
        match self.get(id) {
            None => {
                return Err(Error::Protocol("unknown outbox id"));
            },
            Some(e) => {
                if e.state.terminal() {
                    return Ok(());
                }
            },
        }
        match self.take(id) {
            Some(e) => {
                let mut e = e;
                e.state = OutboxState::AwaitingAck;
                e.updated_at = format_time(now);
                e.next_attempt_at = format_time(now.saturating_add(60_000));
                self.replace(id, e);
                assert(self.entries@ =~= before.insert(char_rank(id@), e));
            },
            None => {},
        }
        Ok(())
    }

    /// Gives up what has waited too long.
    pub fn expire(&mut self, now: u64)
        requires
            old(self).wf(),
        ensures
            final(self).wf(),
            old(self).own_ids() ==> final(self).own_ids(),
            given_up(*old(self), *final(self), now),
    {
        let ghost m0 = self.entries@;
        let ghost s0 = self.entries.entries@;
        let mut i: usize = 0;
        while i < self.entries.entries.len()
            invariant
                self.wf(),
                i <= self.entries.entries@.len(),
                self.entries.entries@.len() == s0.len(),
                crate::table::ascending(s0),
                m0 == crate::table::map_of(s0),
                self.entries@.dom() == m0.dom(),
                forall|j: int|
                    0 <= j < s0.len() ==> (#[trigger] self.entries.entries@[j]).0 == s0[j].0,
                forall|j: int|
                    i <= j < s0.len() ==> (#[trigger] self.entries.entries@[j]).1 == s0[j].1,
                forall|j: int|
                    0 <= j < i ==> if overdue(s0[j].1, now) {
                        moved(
                            s0[j].1,
                            (#[trigger] self.entries.entries@[j]).1,
                            OutboxState::Expired,
                            now,
                        )
                    } else {
                        self.entries.entries@[j].1 == s0[j].1
                    },
            decreases self.entries.entries.len() - i,
        {
            let e = &self.entries.entries[i].1;
            if e.state == OutboxState::Queued && age_ms(e.created_at.as_str(), now)
                > OUTBOX_TTL_MS {
                let ghost was = self.entries.entries@;
                let (k, e) = self.entries.entries.remove(i);
                let mut e = e;
                e.state = OutboxState::Expired;
                e.updated_at = format_time(now);
                self.entries.entries.insert(i, (k, e));
                proof {
                    let now_s = self.entries.entries@;
                    assert(now_s =~= was.update(i as int, (k, e)));
                    map_of_update(was, i as int, k, e);
                    map_of_at(was, i as int);
                    assert(self.entries@.dom() =~= m0.dom());
                    assert forall|j: int| 0 <= j < s0.len() implies (#[trigger] now_s[j]).0
                        == s0[j].0 by {
                        assert(was[j].0 == s0[j].0);
                    }
                    assert forall|j: int| i < j < s0.len() implies (#[trigger] now_s[j]).1
                        == s0[j].1 by {
                        assert(was[j].1 == s0[j].1);
                    }
                    assert forall|j: int| 0 <= j < i implies if overdue(s0[j].1, now) {
                        moved(s0[j].1, (#[trigger] now_s[j]).1, OutboxState::Expired, now)
                    } else {
                        now_s[j].1 == s0[j].1
                    } by {
                        assert(was[j] == now_s[j]);
                    }
                }
            }
            i += 1;
        }
        proof {
            let s1 = self.entries.entries@;
            assert forall|k: Seq<int>| #[trigger]
                self.entries@.dom().contains(k) implies if overdue(m0[k], now) {
                moved(m0[k], self.entries@[k], OutboxState::Expired, now)
            } else {
                self.entries@[k] == m0[k]
            } by {
                let j = choose|j: int| crate::table::holds_at(s1, k, j);
                map_of_at(s1, j);
                assert(s1[j].0 == s0[j].0);
                map_of_at(s0, j);
            }
        }
    }

    /// Gives up a snapshot that is still under way.
    pub fn cancel(&mut self, id: &str, now: u64) -> (r: Result<(), Error>)
        requires
            old(self).wf(),
        ensures
            final(self).wf(),
            old(self).own_ids() ==> final(self).own_ids(),
            if !old(self).has(id@) {
                r == Err::<(), Error>(Error::Protocol("unknown outbox id"))
                    && final(self).entries@ == old(self).entries@
            } else if is_terminal(old(self).at(id@).state) || old(self).at(id@).state is Failed {
                r == Err::<(), Error>(Error::Protocol("cannot cancel terminal outbox entry"))
                    && final(self).entries@ == old(self).entries@
            } else {
                r is Ok && final(self).entries@ == old(self).entries@.insert(
                    char_rank(id@),
                    final(self).at(id@),
                ) && moved(old(self).at(id@), final(self).at(id@), OutboxState::Cancelled, now)
            },
    {
        match self.get(id) {
            None => {
                return Err(Error::Protocol("unknown outbox id"));
            },
            Some(e) => {
                if e.state.terminal() || e.state == OutboxState::Failed {
                    return Err(Error::Protocol("cannot cancel terminal outbox entry"));
                }
            },
        }
        self.set_state(id, OutboxState::Cancelled, now);
        Ok(())
    }
}

/// The position of the first entry with an offer, from `i` on.
pub open spec fn offer_at(s: Seq<(String, OutboxEntry)>, offer_id: Seq<char>, i: int) -> int
    decreases s.len() - i,
{
    if i < 0 || i >= s.len() {
        s.len() as int
    } else if s[i].1.offer_id@ == offer_id {
        i
    } else {
        offer_at(s, offer_id, i + 1)
    }
}

/// An entry that has just been added.
pub open spec fn queued(
    e: OutboxEntry,
    id: Seq<char>,
    offer_id: Seq<char>,
    peer_id: PeerId,
    snapshot_id: crate::cas::Hash,
    manifest_raw: Seq<u8>,
    now: u64,
) -> bool {
    &&& e.id@ == id
    &&& e.offer_id@ == offer_id
    &&& e.peer_id == peer_id
    &&& e.snapshot_id == snapshot_id
    &&& e.state is Queued
    &&& shows_time(now as int, e.created_at@)
    &&& shows_time(now as int, e.updated_at@)
    &&& e.attempts == 0
    &&& e.last_error is None
    &&& e.ack_sig is None
    &&& shows_time(now as int, e.next_attempt_at@)
    &&& e.manifest_raw@ == manifest_raw
}

/// An entry before and after a failed attempt.
pub open spec fn failed_once(
    old_e: OutboxEntry,
    new_e: OutboxEntry,
    error: String,
    now: u64,
    pct: int,
) -> bool {
    let attempts = old_e.attempts + 1;
    &&& new_e == (OutboxEntry {
        attempts: new_e.attempts,
        last_error: Some(error),
        state: new_e.state,
        updated_at: new_e.updated_at,
        next_attempt_at: new_e.next_attempt_at,
        ..old_e
    })
    &&& new_e.attempts == attempts
    &&& shows_time(now as int, new_e.updated_at@)
    &&& if attempts >= MAX_ATTEMPTS {
        new_e.state is Failed && new_e.next_attempt_at == old_e.next_attempt_at
    } else {
        new_e.state is Queued && shows_time(
            now + backoff(attempts as nat) * pct / 100,
            new_e.next_attempt_at@,
        )
    }
}

/// An entry before and after it was started over.
pub open spec fn started_over(
    old_e: OutboxEntry,
    new_e: OutboxEntry,
    offer_id: Seq<char>,
    now: u64,
) -> bool {
    &&& new_e == (OutboxEntry {
        offer_id: new_e.offer_id,
        state: OutboxState::Queued,
        attempts: 0,
        ack_sig: None,
        updated_at: new_e.updated_at,
        next_attempt_at: new_e.next_attempt_at,
        ..old_e
    })
    &&& new_e.offer_id@ == offer_id
    &&& shows_time(now as int, new_e.updated_at@)
    &&& shows_time(now as int, new_e.next_attempt_at@)
}

/// The entry waits for this receipt.
pub open spec fn awaits(e: OutboxEntry, ack: Ack) -> bool {
    &&& e.state is AwaitingAck || e.state is Healthcheck
    &&& e.offer_id@ == ack.offer_id@
    &&& e.snapshot_id == ack.snapshot_id
}

/// No step leads out of a state in which nothing more happens, nor out of failure.
pub proof fn terminal_states_stay(from: OutboxState, to: OutboxState)
    requires
        is_terminal(from) || from is Failed,
    ensures
        !legal_step(from, to),
{
}

/// A receipt for an earlier offer does not settle an entry that was started over since, as long as
/// the entry goes by the new offer: it is passed over and changes nothing.
pub proof fn old_receipt_is_ignored(
    old_e: OutboxEntry,
    new_e: OutboxEntry,
    offer_id: Seq<char>,
    at: u64,
    before: Outbox,
    after: Outbox,
    id: Seq<char>,
    ack: Ack,
    local_peer: PeerId,
    now: u64,
    r: Result<bool, Error>,
)
    requires
        started_over(old_e, new_e, offer_id, at),
        offer_id != old_e.offer_id@,
        ack.offer_id@ == old_e.offer_id@,
        before.has(id),
        before.at(id).offer_id@ == new_e.offer_id@,
        ack_taken(before, after, id, ack, local_peer, now, r),
    ensures
        r == Ok::<bool, Error>(false),
        after.entries@ == before.entries@,
{
}

/// An entry that was started over is listed at once.
pub proof fn fresh_retry_is_listed(
    before: Outbox,
    after: Outbox,
    id: Seq<char>,
    offer_id: Seq<char>,
    now: u64,
)
    requires
        after.wf(),
        after.own_ids(),
        after.has(id),
        started_over(before.at(id), after.at(id), offer_id, now),
        now <= LAST_FOUR_DIGIT_MS,
    ensures
        lists_id(due_ids(after.entries.entries@, now), id),
{
    time_round_trip(now, after.at(id).next_attempt_at@);
    due_are_listed(after, now);
}

/// An entry that lies with a relay is listed again after a minute, and not before.
pub proof fn deposit_is_listed_again(
    before: Outbox,
    after: Outbox,
    id: Seq<char>,
    now: u64,
    later: u64,
)
    requires
        after.wf(),
        after.own_ids(),
        before.has(id),
        !is_terminal(before.at(id).state),
        deposited(before, after, id, now, Ok(())),
        now + 60_000 <= LAST_FOUR_DIGIT_MS,
    ensures
        lists_id(due_ids(after.entries.entries@, later), id) <==> later >= now + 60_000,
{
    time_round_trip((now + 60_000) as u64, after.at(id).next_attempt_at@);
    due_are_listed(after, later);
}

/// An entry that was given up, has arrived or has failed for good is never listed.
pub proof fn finished_is_not_listed(o: Outbox, id: Seq<char>, now: u64)
    requires
        o.wf(),
        o.own_ids(),
        o.has(id),
        is_terminal(o.at(id).state) || o.at(id).state is Failed,
    ensures
        !lists_id(due_ids(o.entries.entries@, now), id),
{
    due_are_listed(o, now);
}

/// The wait is a second after the first failure and doubles with each further one, until it is five
/// minutes; there it stays.
pub proof fn waits_double(failures: nat)
    requires
        failures >= 1,
    ensures
        failures == 1 ==> backoff(failures) == 1000,
        2 * backoff(failures) <= 300_000 ==> backoff(failures + 1) == 2 * backoff(failures),
        2 * backoff(failures) > 300_000 ==> backoff(failures + 1) == 300_000,
        failures <= 9 ==> backoff(failures) == 1000 * pow2((failures - 1) as nat),
        failures >= 10 ==> backoff(failures) == 300_000,
        backoff(failures) <= backoff(failures + 1),
    decreases failures,
{
    backoff_range(failures);
    if failures == 1 {
        lemma2_to64();
    } else {
        waits_double((failures - 1) as nat);
        if failures <= 9 {
            lemma_pow2_unfold((failures - 1) as nat);
        }
        lemma2_to64();
    }
}

/// An entry whose attempt has failed waits as long as the number of its failures says, give or take a
/// fifth, and after twenty failures for ever.
pub proof fn failure_sets_the_wait(old_e: OutboxEntry, new_e: OutboxEntry, error: String, now: u64, pct: int)
    requires
        failed_once(old_e, new_e, error, now, pct),
        80 <= pct <= 120,
    ensures
        new_e.attempts == old_e.attempts + 1,
        new_e.last_error == Some(error),
        new_e.id == old_e.id && new_e.offer_id == old_e.offer_id && new_e.peer_id == old_e.peer_id
            && new_e.snapshot_id == old_e.snapshot_id && new_e.manifest_raw == old_e.manifest_raw
            && new_e.created_at == old_e.created_at,
        new_e.attempts >= 20 <==> new_e.state is Failed,
        new_e.attempts < 20 ==> new_e.state is Queued,
        1 <= new_e.attempts <= 9 ==> shows_time(
            now + 1000 * pow2((new_e.attempts - 1) as nat) * pct / 100,
            new_e.next_attempt_at@,
        ),
        10 <= new_e.attempts < 20 ==> shows_time(
            now + 300_000 * pct / 100,
            new_e.next_attempt_at@,
        ),
{
    waits_double(new_e.attempts as nat);
}

/// No wait is longer than six minutes, and none is shorter than eight tenths of a second.
pub proof fn backoff_bounds(attempts: nat, pct: int)
    requires
        80 <= pct <= 120,
    ensures
        800 <= backoff(attempts) * pct / 100 <= 360_000,
    decreases attempts,
{
    backoff_range(attempts);
    let b = backoff(attempts) as int;
    assert(80_000 <= b * pct <= 36_000_000) by (nonlinear_arith)
        requires
            1000 <= b <= 300_000,
            80 <= pct <= 120,
    ;
}

proof fn backoff_range(attempts: nat)
    ensures
        1000 <= backoff(attempts) <= 300_000,
    decreases attempts,
{
    if attempts > 1 {
        backoff_range((attempts - 1) as nat);
    }
}

} // verus!
