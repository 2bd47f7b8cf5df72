//! Admission control for incoming connections.
//!
//! A [`Gate`] decides whether a connection may proceed before a handler is
//! reached, so a refused connection costs a handshake and nothing more; a
//! [`Permit`] is a connection's claim on a slot, given back through
//! [`Gate::release`]. Nothing here knows about HTTP or the server around it:
//! it counts connections by address and by rate, and that is all.
//!
//! Addresses are IPv6 addresses as 128-bit integers (an IPv4 address in its
//! mapped form), and instants are readings of a monotonic clock in
//! nanoseconds.

use vstd::prelude::*;

verus! {

/// How long after `at` the instant `now` comes, or zero when it does not
/// come after it.
pub open spec fn elapsed(now: u64, at: u64) -> int {
    if now >= at { now - at } else { 0 }
}

/// A record of connection instants with those older than `window` dropped
/// from its front.
pub open spec fn prune_front(record: Seq<u64>, now: u64, window: u64) -> Seq<u64>
    decreases record.len(),
{
    if record.len() > 0 && elapsed(now, record[0]) > window {
        prune_front(record.drop_first(), now, window)
    } else {
        record
    }
}

/// How many instants of `record` lie within `period` of `now`.
pub open spec fn recent(record: Seq<u64>, now: u64, period: u64) -> nat
    decreases record.len(),
{
    if record.len() == 0 {
        0
    } else {
        recent(record.drop_last(), now, period) + if elapsed(now, record.last()) <= period { 1nat } else { 0nat }
    }
}

/// Whether `record` leaves room under every `(period, count)` limit: fewer
/// than `count` instants within `period`.
pub open spec fn within_rates(record: Seq<u64>, now: u64, rates: Seq<(u64, u32)>) -> bool {
    forall|i: int| 0 <= i < rates.len() ==> (#[trigger] recent(record, now, rates[i].0) as u32) < rates[i].1
}

/// Where `ip` sits among the keys of `entries`, if it does.
pub open spec fn key_index<V>(entries: Seq<(u128, V)>, ip: u128) -> Option<int>
    decreases entries.len(),
{
    if entries.len() == 0 {
        None
    } else if entries.last().0 == ip {
        Some(entries.len() - 1)
    } else {
        key_index(entries.drop_last(), ip)
    }
}

/// Whether no key occurs twice.
pub open spec fn keys_unique<V>(entries: Seq<(u128, V)>) -> bool {
    forall|i: int, j: int| 0 <= i < j < entries.len() ==> entries[i].0 != entries[j].0
}

/// How many connections `ip` holds.
pub open spec fn count_of(per_ip: Seq<(u128, u32)>, ip: u128) -> u32 {
    match key_index(per_ip, ip) {
        Some(i) => per_ip[i].1,
        None => 0,
    }
}

/// The recorded instants of `ip`, none when it has no record.
pub open spec fn record_of(history: Seq<(u128, Vec<u64>)>, ip: u128) -> Seq<u64> {
    match key_index(history, ip) {
        Some(i) => history[i].1@,
        None => Seq::empty(),
    }
}

/// The key-value pairs of a history, records by their contents.
pub open spec fn history_view(history: Seq<(u128, Vec<u64>)>) -> Seq<(u128, Seq<u64>)> {
    history.map_values(|entry: (u128, Vec<u64>)| (entry.0, entry.1@))
}

/// The per-address bookkeeping a [`Gate`] keeps.
pub struct GateState {
    /// How many connections each address currently holds.
    pub per_ip: Vec<(u128, u32)>,
    /// When each address last connected, within the rate window, oldest first.
    pub history: Vec<(u128, Vec<u64>)>,
}

impl GateState {
    /// Each address appears once in each table, and an address in the count
    /// table holds at least one connection.
    pub open spec fn well_formed(&self) -> bool {
        &&& keys_unique(self.per_ip@)
        &&& keys_unique(self.history@)
        &&& forall|i: int| 0 <= i < self.per_ip@.len() ==> #[trigger] self.per_ip@[i].1 > 0
    }
}

/// Where `ip` sits among the keys of `entries`.
fn find_key<V>(entries: &Vec<(u128, V)>, ip: u128) -> (out: Option<usize>)
    ensures
        match out {
            Some(i) => key_index(entries@, ip) == Some(i as int),
            None => key_index(entries@, ip) is None,
        },
{
    let mut i: usize = entries.len();
    assert(entries@.take(i as int) == entries@);
    while i > 0
        invariant
            i <= entries.len(),
            key_index(entries@, ip) == key_index(entries@.take(i as int), ip),
        decreases i,
    {
        assert(entries@.take(i as int).drop_last() == entries@.take(i - 1));
        if entries[i - 1].0 == ip {
            return Some(i - 1);
        }
        i = i - 1;
    }
    None
}

/// What `key_index` finds, given that no key occurs twice.
proof fn lemma_key_index<V>(entries: Seq<(u128, V)>, ip: u128)
    ensures
        match key_index(entries, ip) {
            Some(i) => 0 <= i < entries.len() && entries[i].0 == ip,
            None => forall|j: int| 0 <= j < entries.len() ==> entries[j].0 != ip,
        },
        keys_unique(entries) ==> forall|j: int| 0 <= j < entries.len() && entries[j].0 == ip ==> key_index(entries, ip) == Some(j),
    decreases entries.len(),
{
    if entries.len() > 0 {
        lemma_key_index(entries.drop_last(), ip);
        assert forall|j: int| 0 <= j < entries.drop_last().len() implies entries.drop_last()[j] == entries[j] by {}
    }
}

/// How long after `at` the instant `now` comes, or zero when it does not come
/// after it.
fn elapsed_since(now: u64, at: u64) -> (d: u64)
    ensures
        d == elapsed(now, at),
{
    if now >= at { now - at } else { 0 }
}

/// `record` with the instants older than `window` dropped from its front.
fn prune_record(record: &Vec<u64>, now: u64, window: u64) -> (out: Vec<u64>)
    ensures
        out@ == prune_front(record@, now, window),
{
    let mut start: usize = 0;
    assert(record@.skip(0) == record@);
    while start < record.len() && elapsed_since(now, record[start]) > window
        invariant
            start <= record.len(),
            prune_front(record@, now, window) == prune_front(record@.skip(start as int), now, window),
        decreases record.len() - start,
    {
        assert(record@.skip(start as int).drop_first() == record@.skip(start + 1));
        start = start + 1;
    }
    let mut out: Vec<u64> = Vec::new();
    let mut i: usize = start;
    while i < record.len()
        invariant
            start <= i <= record.len(),
            out@ == record@.subrange(start as int, i as int),
        decreases record.len() - i,
    {
        out.push(record[i]);
        assert(record@.subrange(start as int, i + 1) == record@.subrange(start as int, i as int).push(record@[i as int]));
        i = i + 1;
    }
    assert(record@.subrange(start as int, record.len() as int) == record@.skip(start as int));
    out
}

/// How many instants of `record` lie within `period` of `now`.
fn count_recent(record: &Vec<u64>, now: u64, period: u64) -> (n: usize)
    ensures
        n == recent(record@, now, period),
{
    let mut n: usize = 0;
    let mut i: usize = 0;
    while i < record.len()
        invariant
            i <= record.len(),
            n == recent(record@.take(i as int), now, period),
            n <= i,
        decreases record.len() - i,
    {
        assert(record@.take(i + 1).drop_last() == record@.take(i as int));
        if elapsed_since(now, record[i]) <= period {
            n = n + 1;
        }
        i = i + 1;
    }
    assert(record@.take(record.len() as int) == record@);
    n
}

/// The longest period among the rate limits, zero when there are none.
pub open spec fn longest_period(rates: Seq<(u64, u32)>) -> u64
    decreases rates.len(),
{
    if rates.len() == 0 {
        0
    } else {
        let rest = longest_period(rates.drop_last());
        if rates.last().0 > rest { rates.last().0 } else { rest }
    }
}

/// Admission control for incoming connections.
///
/// Checked before a handler is reached, so a refused connection costs a
/// handshake and nothing more. One gate serves every listener and worker,
/// so the totals are for the server as a whole rather than per port.
pub struct Gate {
    /// The connections that may be open at once. Zero is unbounded.
    pub max_connections: u32,
    /// The connections one address may have open. Zero is unbounded.
    pub max_connections_per_ip: u32,
    /// Rate limits as `(period in nanoseconds, count)`: fewer than `count`
    /// connections from one address within any `period`.
    pub max_connection_rate: Vec<(u64, u32)>,
    /// The addresses whose history is remembered.
    pub max_connection_history: usize,
    /// The longest period in `max_connection_rate`, which is how far back
    /// history has to be kept.
    pub window: u64,
    /// How many connections are open right now.
    pub connections: u32,
    /// The per-address bookkeeping.
    pub state: GateState,
}

/// A connection's claim on a [`Gate`] slot, given back through
/// [`Gate::release`] with the address it carries.
#[derive(Debug, Clone, Copy, PartialEq, Eq)]
pub struct Permit {
    /// The address the slot was counted against, if any.
    pub ip: Option<u128>,
}

impl Gate {
    /// A gate with these limits, with nothing admitted yet.
    pub fn new(max_connections: u32, max_connections_per_ip: u32, max_connection_rate: Vec<(u64, u32)>, max_connection_history: usize) -> (gate: Gate)
        ensures
            gate.max_connections == max_connections,
            gate.max_connections_per_ip == max_connections_per_ip,
            gate.max_connection_rate@ == max_connection_rate@,
            gate.max_connection_history == max_connection_history,
            gate.window == longest_period(max_connection_rate@),
            gate.connections == 0,
            gate.state.per_ip@.len() == 0,
            gate.state.history@.len() == 0,
            gate.state.well_formed(),
    {
        let mut window: u64 = 0;
        let mut i: usize = 0;
        while i < max_connection_rate.len()
            invariant
                i <= max_connection_rate.len(),
                window == longest_period(max_connection_rate@.take(i as int)),
            decreases max_connection_rate.len() - i,
        {
            assert(max_connection_rate@.take(i + 1).drop_last() == max_connection_rate@.take(i as int));
            if max_connection_rate[i].0 > window {
                window = max_connection_rate[i].0;
            }
            i = i + 1;
        }
        assert(max_connection_rate@.take(max_connection_rate.len() as int) == max_connection_rate@);
        Gate {
            max_connections,
            max_connections_per_ip,
            max_connection_rate,
            max_connection_history,
            window,
            connections: 0,
            state: GateState { per_ip: Vec::new(), history: Vec::new() },
        }
    }

    /// How many connections are open right now.
    pub fn count(&self) -> (n: u32)
        ensures
            n == self.connections,
    {
        self.connections
    }

    /// The longest rate limit period, and so how far back history is kept.
    pub fn window(&self) -> (w: u64)
        ensures
            w == self.window,
    {
        self.window
    }
}

/// `history` with the record of `ip` replaced by `record`, or added last when
/// `ip` has none.
pub open spec fn set_record(history: Seq<(u128, Seq<u64>)>, ip: u128, record: Seq<u64>) -> Seq<(u128, Seq<u64>)> {
    match key_index(history, ip) {
        Some(i) => history.update(i, (ip, record)),
        None => history.push((ip, record)),
    }
}

/// The recorded instants of `ip`, none when it has no record.
pub open spec fn record_in(history: Seq<(u128, Seq<u64>)>, ip: u128) -> Seq<u64> {
    match key_index(history, ip) {
        Some(i) => history[i].1,
        None => Seq::empty(),
    }
}

/// Looking an address up in a history finds it where its view does.
proof fn lemma_key_index_view(history: Seq<(u128, Vec<u64>)>, ip: u128)
    ensures
        key_index(history_view(history), ip) == key_index(history, ip),
    decreases history.len(),
{
    if history.len() > 0 {
        assert(history_view(history).drop_last() == history_view(history.drop_last()));
        lemma_key_index_view(history.drop_last(), ip);
    }
}

impl Gate {
    /// Whether `ip` is within every rate limit, recording the attempt at
    /// `now` when it is.
    ///
    /// The instants older than the longest window are dropped from the front
    /// of the record as they are found, whatever the answer.
    pub fn rate(&self, state: &mut GateState, ip: u128, now: u64) -> (ok: bool)
        requires
            old(state).well_formed(),
        ensures
            final(state).well_formed(),
            final(state).per_ip@ == old(state).per_ip@,
            ({
                let pruned = prune_front(record_in(history_view(old(state).history@), ip), now, self.window);
                &&& ok == within_rates(pruned, now, self.max_connection_rate@)
                &&& history_view(final(state).history@) == set_record(history_view(old(state).history@), ip,
                    if ok { pruned.push(now) } else { pruned })
            }),
    {
        let window = self.window();
        proof {
            lemma_key_index_view(state.history@, ip);
            lemma_key_index(state.history@, ip);
        }
        let found = find_key(&state.history, ip);
        let mut record = match found {
            Some(i) => prune_record(&state.history[i].1, now, window),
            None => Vec::new(),
        };
        let ghost pruned = record@;
        let mut k: usize = 0;
        while k < self.max_connection_rate.len()
            invariant
                k <= self.max_connection_rate.len(),
                record@ == pruned,
                forall|j: int| 0 <= j < k ==> (#[trigger] recent(pruned, now, self.max_connection_rate@[j].0) as u32) < self.max_connection_rate@[j].1,
            ensures
                k <= self.max_connection_rate.len(),
                record@ == pruned,
                forall|j: int| 0 <= j < k ==> (#[trigger] recent(pruned, now, self.max_connection_rate@[j].0) as u32) < self.max_connection_rate@[j].1,
                k < self.max_connection_rate.len() ==> (recent(pruned, now, self.max_connection_rate@[k as int].0) as u32) >= self.max_connection_rate@[k as int].1,
            decreases self.max_connection_rate.len() - k,
        {
            let (period, count) = self.max_connection_rate[k];
            let recent_count = count_recent(&record, now, period) as u32;
            if recent_count >= count {
                break;
            }
            k = k + 1;
        }
        let ok = k == self.max_connection_rate.len();
        if ok {
            record.push(now);
        }
        match found {
            Some(i) => {
                state.history.set(i, (ip, record));
            },
            None => {
                state.history.push((ip, record));
            },
        }
        proof {
            assert(history_view(state.history@) == set_record(history_view(old(state).history@), ip, if ok { pruned.push(now) } else { pruned }));
        }
        ok
    }
}

/// Where the first address other than `keep` sits in `history`.
pub open spec fn first_other(history: Seq<(u128, Seq<u64>)>, keep: u128) -> Option<int>
    decreases history.len(),
{
    if history.len() == 0 {
        None
    } else if history[0].0 != keep {
        Some(0)
    } else {
        match first_other(history.drop_first(), keep) {
            Some(i) => Some(i + 1),
            None => None,
        }
    }
}

/// `history` cut down to `cap` addresses by forgetting the earliest
/// addresses other than `keep`, as far as there are such addresses.
pub open spec fn bounded_history(history: Seq<(u128, Seq<u64>)>, keep: u128, cap: int) -> Seq<(u128, Seq<u64>)>
    decreases history.len(),
{
    if history.len() <= cap {
        history
    } else {
        match first_other(history, keep) {
            Some(i) => if 0 <= i < history.len() { bounded_history(history.remove(i), keep, cap) } else { history },
            None => history,
        }
    }
}

/// The history capacity of a gate: the larger of its history limit and its
/// connection limit.
pub open spec fn history_cap(gate: &Gate) -> int {
    if gate.max_connection_history >= gate.max_connections as usize {
        gate.max_connection_history as int
    } else {
        gate.max_connections as int
    }
}

/// Where the first address other than `keep` sits in `history`.
fn find_other(history: &Vec<(u128, Vec<u64>)>, keep: u128) -> (out: Option<usize>)
    ensures
        match out {
            Some(i) => first_other(history_view(history@), keep) == Some(i as int) && i < history@.len(),
            None => first_other(history_view(history@), keep) is None,
        },
{
    let mut i: usize = 0;
    assert(history_view(history@).skip(0) == history_view(history@));
    while i < history.len()
        invariant
            i <= history.len(),
            forall|j: int| 0 <= j < i ==> history@[j].0 == keep,
            first_other(history_view(history@), keep) == match first_other(history_view(history@).skip(i as int), keep) {
                Some(k) => Some(k + i),
                None => None,
            },
        decreases history.len() - i,
    {
        assert(history_view(history@).skip(i as int).drop_first() == history_view(history@).skip(i + 1));
        if history[i].0 != keep {
            return Some(i);
        }
        i = i + 1;
    }
    None
}

impl Gate {
    /// Bounds how many addresses are remembered, never forgetting `keep`.
    ///
    /// Without this, a flood from many addresses would grow the history
    /// without bound: the rate limiter itself becoming the way in.
    pub fn bound_history(&self, state: &mut GateState, keep: u128)
        requires
            old(state).well_formed(),
        ensures
            final(state).well_formed(),
            final(state).per_ip@ == old(state).per_ip@,
            history_view(final(state).history@) == bounded_history(history_view(old(state).history@), keep, history_cap(self)),
    {
        let cap: usize = if self.max_connection_history >= self.max_connections as usize {
            self.max_connection_history
        } else {
            self.max_connections as usize
        };
        while state.history.len() > cap
            invariant
                state.well_formed(),
                state.per_ip@ == old(state).per_ip@,
                cap == history_cap(self),
                bounded_history(history_view(state.history@), keep, cap as int)
                    == bounded_history(history_view(old(state).history@), keep, history_cap(self)),
            ensures
                state.well_formed(),
                state.per_ip@ == old(state).per_ip@,
                history_view(state.history@) == bounded_history(history_view(old(state).history@), keep, history_cap(self)),
            decreases state.history.len(),
        {
            match find_other(&state.history, keep) {
                Some(i) => {
                    let ghost before = state.history@;
                    state.history.remove(i);
                    proof {
                        assert(history_view(state.history@) == history_view(before).remove(i as int));
                        assert forall|a: int, b: int| 0 <= a < b < state.history@.len() implies state.history@[a].0 != state.history@[b].0 by {
                            let a0 = if a < i { a } else { a + 1 };
                            let b0 = if b < i { b } else { b + 1 };
                            assert(state.history@[a] == before[a0]);
                            assert(state.history@[b] == before[b0]);
                        }
                    }
                },
                None => {
                    break;
                },
            }
        }
    }
}

/// `per_ip` with one more connection counted against `ip`.
pub open spec fn count_one_more(per_ip: Seq<(u128, u32)>, ip: u128) -> Seq<(u128, u32)> {
    match key_index(per_ip, ip) {
        Some(i) => per_ip.update(i, (ip, (per_ip[i].1 + 1) as u32)),
        None => per_ip.push((ip, 1u32)),
    }
}

/// `per_ip` with one connection of `ip` given back, and `ip` forgotten when
/// it holds none.
pub open spec fn count_one_less(per_ip: Seq<(u128, u32)>, ip: u128) -> Seq<(u128, u32)> {
    match key_index(per_ip, ip) {
        Some(i) => if per_ip[i].1 <= 1 { per_ip.remove(i) } else { per_ip.update(i, (ip, (per_ip[i].1 - 1) as u32)) },
        None => per_ip,
    }
}

/// Whether two gates have the same limits.
pub open spec fn same_limits(a: &Gate, b: &Gate) -> bool {
    &&& a.max_connections == b.max_connections
    &&& a.max_connections_per_ip == b.max_connections_per_ip
    &&& a.max_connection_rate@ == b.max_connection_rate@
    &&& a.max_connection_history == b.max_connection_history
    &&& a.window == b.window
}

/// True when `max_connections` is non-zero and `connections` is at least `max_connections`.
pub open spec fn at_capacity(gate: &Gate) -> bool {
    gate.max_connections != 0 && gate.connections >= gate.max_connections
}

/// Whether `ip` is at its limit of connections.
pub open spec fn ip_at_capacity(gate: &Gate, ip: u128) -> bool {
    gate.max_connections_per_ip != 0 && count_of(gate.state.per_ip@, ip) >= gate.max_connections_per_ip
}

/// The record `ip` would be judged by at `now`.
pub open spec fn pruned_record(gate: &Gate, ip: u128, now: u64) -> Seq<u64> {
    prune_front(record_in(history_view(gate.state.history@), ip), now, gate.window)
}

/// What admitting a connection from `ip` at `now` does to a gate: `after`
/// is `before` once `permit` has been given or refused.
///
/// A full gate refuses. A connection without an address is let in. One from
/// an address at its own limit is refused. Otherwise the address's record,
/// pruned at `now`, decides: within every rate limit, the connection is let
/// in, counted, and recorded, and the history bounded; outside one, it is
/// refused, with only the pruning kept.
pub open spec fn admission(before: &Gate, after: &Gate, ip: Option<u128>, now: u64, permit: Option<Permit>) -> bool {
    let a = ip.unwrap();
    let pruned = pruned_record(before, a, now);
    let allowed = within_rates(pruned, now, before.max_connection_rate@);
    let unchanged = after.connections == before.connections && after.state.per_ip@ == before.state.per_ip@;
    if at_capacity(before) {
        permit is None && unchanged && after.state.history@ == before.state.history@
    } else if ip is None {
        &&& permit == Some(Permit { ip: None })
        &&& after.connections == before.connections + 1
        &&& after.state.per_ip@ == before.state.per_ip@
        &&& after.state.history@ == before.state.history@
    } else if ip_at_capacity(before, a) {
        permit is None && unchanged && after.state.history@ == before.state.history@
    } else if allowed {
        &&& permit == Some(Permit { ip })
        &&& after.connections == before.connections + 1
        &&& after.state.per_ip@ == count_one_more(before.state.per_ip@, a)
        &&& history_view(after.state.history@) == bounded_history(
            set_record(history_view(before.state.history@), a, pruned.push(now)), a, history_cap(before))
    } else {
        &&& permit is None
        &&& unchanged
        &&& history_view(after.state.history@) == set_record(history_view(before.state.history@), a, pruned)
    }
}

impl Gate {
    /// Whether the counts can take one more connection from `ip` without
    /// overflowing: a count that can reach its type's limit has a limit of
    /// its own below it.
    pub open spec fn can_count(&self, ip: Option<u128>) -> bool {
        &&& (self.max_connections != 0 || self.connections < u32::MAX)
        &&& (ip matches Some(a) ==> self.max_connections_per_ip != 0 || count_of(self.state.per_ip@, a) < u32::MAX)
    }

    /// Admits a connection, or refuses it.
    ///
    /// `None` means turn the connection away. A [`Permit`] means it may
    /// proceed, and its slot is held until [`Gate::release`] is called with
    /// its address. An `ip` of `None` skips the per-address checks; a Unix
    /// socket has no address to limit by.
    pub fn admit_connection(&mut self, ip: Option<u128>, now: u64) -> (permit: Option<Permit>)
        requires
            old(self).state.well_formed(),
            old(self).can_count(ip),
        ensures
            final(self).state.well_formed(),
            same_limits(&*final(self), &*old(self)),
            admission(&*old(self), &*final(self), ip, now, permit),
    {
        if self.max_connections != 0 && self.connections >= self.max_connections {
            return None;
        }
        match ip {
            None => {
                self.connections = self.connections + 1;
                Some(Permit { ip })
            },
            Some(a) => {
                let found = find_key(&self.state.per_ip, a);
                proof {
                    lemma_key_index(self.state.per_ip@, a);
                }
                let count: u32 = match found {
                    Some(i) => self.state.per_ip[i].1,
                    None => 0,
                };
                if self.max_connections_per_ip != 0 && count >= self.max_connections_per_ip {
                    return None;
                }
                let mut state = GateState { per_ip: Vec::new(), history: Vec::new() };
                std::mem::swap(&mut state, &mut self.state);
                let allowed = self.rate(&mut state, a, now);
                if !allowed {
                    std::mem::swap(&mut state, &mut self.state);
                    return None;
                }
                self.bound_history(&mut state, a);
                match found {
                    Some(i) => {
                        state.per_ip.set(i, (a, count + 1));
                    },
                    None => {
                        state.per_ip.push((a, 1));
                    },
                }
                proof {
                    assert forall|x: int, y: int| 0 <= x < y < state.per_ip@.len() implies state.per_ip@[x].0 != state.per_ip@[y].0 by {
                        if found is None {
                            if y == state.per_ip@.len() - 1 {
                                assert(state.per_ip@[x] == old(self).state.per_ip@[x]);
                            }
                        }
                    }
                }
                std::mem::swap(&mut state, &mut self.state);
                self.connections = self.connections + 1;
                Some(Permit { ip })
            },
        }
    }

    /// Gives a connection's slot back.
    ///
    /// The total falls by one, wrapping as an atomic counter does, and the
    /// address's count by one, the address being forgotten at zero. Calling
    /// it for a connection that holds no permit would double-count.
    pub fn release(&mut self, ip: Option<u128>)
        requires
            old(self).state.well_formed(),
        ensures
            final(self).state.well_formed(),
            same_limits(&*final(self), &*old(self)),
            final(self).connections == if old(self).connections == 0 { u32::MAX } else { (old(self).connections - 1) as u32 },
            final(self).state.history@ == old(self).state.history@,
            final(self).state.per_ip@ == match ip {
                Some(a) => count_one_less(old(self).state.per_ip@, a),
                None => old(self).state.per_ip@,
            },
    {
        self.connections = self.connections.wrapping_sub(1);
        match ip {
            Some(a) => {
                let found = find_key(&self.state.per_ip, a);
                proof {
                    lemma_key_index(self.state.per_ip@, a);
                }
                match found {
                    Some(i) => {
                        let count = self.state.per_ip[i].1;
                        let ghost before = self.state.per_ip@;
                        if count <= 1 {
                            self.state.per_ip.remove(i);
                            proof {
                                assert forall|x: int, y: int| 0 <= x < y < self.state.per_ip@.len() implies self.state.per_ip@[x].0 != self.state.per_ip@[y].0 by {
                                    let x0 = if x < i { x } else { x + 1 };
                                    let y0 = if y < i { y } else { y + 1 };
                                    assert(self.state.per_ip@[x] == before[x0]);
                                    assert(self.state.per_ip@[y] == before[y0]);
                                }
                                assert forall|x: int| 0 <= x < self.state.per_ip@.len() implies #[trigger] self.state.per_ip@[x].1 > 0 by {
                                    let x0 = if x < i { x } else { x + 1 };
                                    assert(self.state.per_ip@[x] == before[x0]);
                                }
                            }
                        } else {
                            self.state.per_ip.set(i, (a, count - 1));
                        }
                    },
                    None => {},
                }
            },
            None => {},
        }
    }

    /// Drops rate history that has aged out at `now`, and the addresses left
    /// with none.
    ///
    /// [`Gate::admit_connection`] prunes as it goes, so this is only needed to reclaim
    /// memory on a server that has gone quiet.
    pub fn sweep(&mut self, now: u64)
        requires
            old(self).state.well_formed(),
        ensures
            final(self).state.well_formed(),
            same_limits(&*final(self), &*old(self)),
            final(self).connections == old(self).connections,
            final(self).state.per_ip@ == old(self).state.per_ip@,
            history_view(final(self).state.history@) == swept(history_view(old(self).state.history@), now, old(self).window),
    {
        let window = self.window();
        let mut kept: Vec<(u128, Vec<u64>)> = Vec::new();
        let ghost mut picked: Seq<int> = Seq::empty();
        let mut i: usize = 0;
        while i < self.state.history.len()
            invariant
                i <= self.state.history.len(),
                self.state.well_formed(),
                self.window == window,
                history_view(kept@) == swept(history_view(self.state.history@).take(i as int), now, window),
                picked.len() == kept@.len(),
                forall|k: int| 0 <= k < picked.len() ==> 0 <= #[trigger] picked[k] < i && kept@[k].0 == self.state.history@[picked[k]].0,
                forall|x: int, y: int| 0 <= x < y < picked.len() ==> #[trigger] picked[x] < #[trigger] picked[y],
            decreases self.state.history.len() - i,
        {
            let record = prune_record(&self.state.history[i].1, now, window);
            proof {
                assert(history_view(self.state.history@).take(i + 1).drop_last() == history_view(self.state.history@).take(i as int));
            }
            if record.len() > 0 {
                let ghost before = kept@;
                kept.push((self.state.history[i].0, record));
                proof {
                    assert(history_view(kept@) == history_view(before).push((self.state.history@[i as int].0, record@)));
                    picked = picked.push(i as int);
                }
            }
            i = i + 1;
        }
        proof {
            assert(history_view(self.state.history@).take(self.state.history.len() as int) == history_view(self.state.history@));
            assert forall|x: int, y: int| 0 <= x < y < kept@.len() implies kept@[x].0 != kept@[y].0 by {
                assert(picked[x] < picked[y]);
            }
        }
        self.state.history = kept;
    }
}

/// `history` with each record pruned at `now`, and the addresses whose
/// records are left empty forgotten, in order.
pub open spec fn swept(history: Seq<(u128, Seq<u64>)>, now: u64, window: u64) -> Seq<(u128, Seq<u64>)>
    decreases history.len(),
{
    if history.len() == 0 {
        history
    } else {
        let rest = swept(history.drop_last(), now, window);
        let record = prune_front(history.last().1, now, window);
        if record.len() > 0 { rest.push((history.last().0, record)) } else { rest }
    }
}

/// Counting one more connection against `ip` in a well-formed table.
proof fn lemma_count_one_more(per_ip: Seq<(u128, u32)>, ip: u128)
    requires
        keys_unique(per_ip),
        forall|i: int| 0 <= i < per_ip.len() ==> #[trigger] per_ip[i].1 > 0,
        count_of(per_ip, ip) < u32::MAX,
    ensures
        keys_unique(count_one_more(per_ip, ip)),
        forall|i: int| 0 <= i < count_one_more(per_ip, ip).len() ==> #[trigger] count_one_more(per_ip, ip)[i].1 > 0,
        count_of(count_one_more(per_ip, ip), ip) == count_of(per_ip, ip) + 1,
        count_one_less(count_one_more(per_ip, ip), ip) == per_ip,
{
    lemma_key_index(per_ip, ip);
    let more = count_one_more(per_ip, ip);
    match key_index(per_ip, ip) {
        Some(i) => {
            assert forall|x: int, y: int| 0 <= x < y < more.len() implies more[x].0 != more[y].0 by {
                assert(more[x].0 == per_ip[x].0 && more[y].0 == per_ip[y].0);
            }
            lemma_key_index(more, ip);
            assert(more.update(i, (ip, (more[i].1 - 1) as u32)) == per_ip);
        },
        None => {
            assert forall|x: int, y: int| 0 <= x < y < more.len() implies more[x].0 != more[y].0 by {
                if y < per_ip.len() {
                    assert(more[x] == per_ip[x] && more[y] == per_ip[y]);
                } else {
                    assert(more[x] == per_ip[x]);
                }
            }
            assert(more.drop_last() == per_ip);
            assert(key_index(more, ip) == Some(per_ip.len() as int));
            assert(more.remove(per_ip.len() as int) == per_ip);
        },
    }
}

/// A gate that has a limit and is within it stays within it, whatever is
/// asked of it.
pub proof fn law_admission_within_limit(before: &Gate, after: &Gate, ip: Option<u128>, now: u64, permit: Option<Permit>)
    requires
        admission(before, after, ip, now, permit),
        before.max_connections != 0,
        before.connections <= before.max_connections,
    ensures
        after.connections <= before.max_connections,
{
}

/// An address that has a limit and is within it stays within it.
pub proof fn law_admission_within_ip_limit(before: &Gate, after: &Gate, ip: u128, now: u64, permit: Option<Permit>)
    requires
        before.state.well_formed(),
        before.can_count(Some(ip)),
        admission(before, after, Some(ip), now, permit),
        before.max_connections_per_ip != 0,
        count_of(before.state.per_ip@, ip) <= before.max_connections_per_ip,
    ensures
        count_of(after.state.per_ip@, ip) <= before.max_connections_per_ip,
{
    if !at_capacity(before) && !ip_at_capacity(before, ip) && within_rates(pruned_record(before, ip, now), now, before.max_connection_rate@) {
        lemma_count_one_more(before.state.per_ip@, ip);
    }
}

/// A refused connection leaves the counts as they were.
pub proof fn law_refusal_counts_nothing(before: &Gate, after: &Gate, ip: Option<u128>, now: u64)
    requires
        admission(before, after, ip, now, None),
    ensures
        after.connections == before.connections,
        after.state.per_ip@ == before.state.per_ip@,
{
}

/// Giving back the permit a connection was admitted with restores the
/// counts to what they were before it came.
pub proof fn law_release_undoes_admission(before: &Gate, after: &Gate, ip: Option<u128>, now: u64, permit: Permit)
    requires
        before.state.well_formed(),
        before.can_count(ip),
        admission(before, after, ip, now, Some(permit)),
    ensures
        permit.ip == ip,
        (if after.connections == 0 { u32::MAX } else { (after.connections - 1) as u32 }) == before.connections,
        match permit.ip {
            Some(a) => count_one_less(after.state.per_ip@, a),
            None => after.state.per_ip@,
        } == before.state.per_ip@,
{
    if ip is Some {
        lemma_count_one_more(before.state.per_ip@, ip.unwrap());
    }
}

/// Bounding a history with unique addresses leaves at most `cap` of them,
/// or `keep` alone, and keeps `keep`'s record as it was.
pub proof fn law_bounded_history(history: Seq<(u128, Seq<u64>)>, keep: u128, cap: int)
    requires
        keys_unique(history),
        cap >= 0,
    ensures
        bounded_history(history, keep, cap).len() <= if cap >= 1 { cap } else { 1 },
        record_in(bounded_history(history, keep, cap), keep) == record_in(history, keep),
        keys_unique(bounded_history(history, keep, cap)),
    decreases history.len(),
{
    lemma_key_index(history, keep);
    if history.len() > cap {
        lemma_first_other(history, keep);
        match first_other(history, keep) {
            Some(i) => {
                let rest = history.remove(i);
                assert forall|x: int, y: int| 0 <= x < y < rest.len() implies rest[x].0 != rest[y].0 by {
                    let x0 = if x < i { x } else { x + 1 };
                    let y0 = if y < i { y } else { y + 1 };
                    assert(rest[x] == history[x0] && rest[y] == history[y0]);
                }
                lemma_key_index(rest, keep);
                match key_index(history, keep) {
                    Some(k) => {
                        let k2 = if k < i { k } else { k - 1 };
                        assert(rest[k2] == history[k]);
                    },
                    None => {
                        assert forall|j: int| 0 <= j < rest.len() implies rest[j].0 != keep by {
                            let j0 = if j < i { j } else { j + 1 };
                            assert(rest[j] == history[j0]);
                        }
                    },
                }
                law_bounded_history(rest, keep, cap);
            },
            None => {
                if history.len() > 1 {
                    assert(history[0].0 == keep && history[1].0 == keep);
                }
            },
        }
    }
}

/// What `first_other` finds.
proof fn lemma_first_other(history: Seq<(u128, Seq<u64>)>, keep: u128)
    ensures
        match first_other(history, keep) {
            Some(i) => 0 <= i < history.len() && history[i].0 != keep,
            None => forall|j: int| 0 <= j < history.len() ==> history[j].0 == keep,
        },
    decreases history.len(),
{
    if history.len() > 0 && history[0].0 == keep {
        lemma_first_other(history.drop_first(), keep);
        assert forall|j: int| 0 <= j < history.drop_first().len() implies history.drop_first()[j] == history[j + 1] by {}
        if first_other(history.drop_first(), keep) is None {
            assert forall|j: int| 0 <= j < history.len() implies history[j].0 == keep by {
                if j > 0 {
                    assert(history.drop_first()[j - 1] == history[j]);
                }
            }
        }
    }
}

} // verus!
