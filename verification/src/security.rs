//! Bans: an address that fails to log in too often is refused for a while.
//!
//! Times are Unix seconds.
use vstd::prelude::*;

use crate::json;
use crate::text;
use crate::text_map::{self, TextMap};

verus! {

/// How many failed attempts bring a ban.
pub const MAX_FAILED_ATTEMPTS: u64 = 10;

/// How long a ban lasts: a quarter of an hour.
pub const BAN_TTL_SECS: u64 = 900;

/// A ban as it is stored.
#[derive(Debug)]
pub struct BlacklistRecord {
    pub ip: String,
    pub expires_at: u64,
}

/// The banned addresses and the failed attempts of the others.
#[derive(Debug)]
pub struct SecurityManager {
    /// Banned addresses, each with the time at which its ban ends.
    pub bans: TextMap,
    pub failed_attempts: TextMap,
    /// Whether the bans have changed since they were last stored.
    pub unsaved: bool,
}

/// The bans that have not ended.
pub open spec fn active(bans: Map<Seq<char>, u64>, now: u64) -> Map<Seq<char>, u64> {
    bans.restrict(Set::new(|ip: Seq<char>| bans.contains_key(ip) && bans[ip] > now))
}

/// Whether a ban has ended.
pub open spec fn has_ended(bans: Map<Seq<char>, u64>, ip: Seq<char>, now: u64) -> bool {
    bans.contains_key(ip) && bans[ip] <= now
}

/// The failed attempts without those of the addresses whose bans have ended.
pub open spec fn forgiven(
    attempts: Map<Seq<char>, u64>,
    bans: Map<Seq<char>, u64>,
    now: u64,
) -> Map<Seq<char>, u64> {
    attempts.restrict(
        Set::new(|ip: Seq<char>| attempts.contains_key(ip) && !has_ended(bans, ip, now)),
    )
}

/// Whether an address is among the first `n` of a list.
spec fn listed(list: Seq<String>, n: int, ip: Seq<char>) -> bool {
    exists|j: int| 0 <= j < n && (#[trigger] list[j])@ == ip
}

/// How often an address has failed.
pub open spec fn failures(attempts: Map<Seq<char>, u64>, ip: Seq<char>) -> u64 {
    if attempts.contains_key(ip) {
        attempts[ip]
    } else {
        0
    }
}

/// What the manager knows: bans with their ends, failed attempts, and whether the bans have
/// changed since they were last stored.
pub struct SecurityView {
    pub bans: Map<Seq<char>, u64>,
    pub attempts: Map<Seq<char>, u64>,
    pub unsaved: bool,
}

impl View for SecurityManager {
    type V = SecurityView;

    open spec fn view(&self) -> SecurityView {
        SecurityView {
            bans: self.bans@,
            attempts: self.failed_attempts@,
            unsaved: self.unsaved,
        }
    }
}

/// Whether any ban has ended.
pub open spec fn any_ended(bans: Map<Seq<char>, u64>, now: u64) -> bool {
    exists|ip: Seq<char>| #[trigger] has_ended(bans, ip, now)
}

/// What is known once the bans that have ended are removed.
pub open spec fn refreshed(known: SecurityView, now: u64) -> SecurityView {
    SecurityView {
        bans: active(known.bans, now),
        attempts: forgiven(known.attempts, known.bans, now),
        unsaved: known.unsaved || any_ended(known.bans, now),
    }
}

/// What is known after a failed attempt of an address: nothing more where the address is banned;
/// elsewhere it counts, and the last one that is allowed brings a ban.
pub open spec fn failed(known: SecurityView, ip: Seq<char>, now: u64) -> SecurityView {
    let current = refreshed(known, now);
    let count = (failures(current.attempts, ip) + 1) as u64;
    if current.bans.contains_key(ip) {
        current
    } else if count >= MAX_FAILED_ATTEMPTS {
        SecurityView {
            bans: current.bans.insert(ip, (now + BAN_TTL_SECS) as u64),
            attempts: current.attempts.insert(ip, count),
            unsaved: true,
        }
    } else {
        SecurityView { attempts: current.attempts.insert(ip, count), ..current }
    }
}

/// What is known once the failed attempts of an address are forgotten.
pub open spec fn succeeded(known: SecurityView, ip: Seq<char>) -> SecurityView {
    SecurityView { attempts: known.attempts.remove(ip), ..known }
}

/// What is known once an address is banned: nothing new where it was.
pub open spec fn ban_added(known: SecurityView, ip: Seq<char>, now: u64) -> SecurityView {
    let current = refreshed(known, now);
    if current.bans.contains_key(ip) {
        current
    } else {
        SecurityView {
            bans: current.bans.insert(ip, (now + BAN_TTL_SECS) as u64),
            unsaved: true,
            ..current
        }
    }
}

/// What is known once the ban of an address is ended: nothing new where there was none.
pub open spec fn ban_removed(known: SecurityView, ip: Seq<char>) -> SecurityView {
    if known.bans.contains_key(ip) {
        SecurityView {
            bans: known.bans.remove(ip),
            attempts: known.attempts.remove(ip),
            unsaved: true,
        }
    } else {
        known
    }
}

impl SecurityManager {
    /// Who reached the most attempts is banned.
    pub open spec fn wf(self) -> bool {
        &&& self.bans.wf()
        &&& self.failed_attempts.wf()
        &&& forall|ip: Seq<char>| #[trigger]
            self.failed_attempts@.contains_key(ip) && self.failed_attempts@[ip]
                >= MAX_FAILED_ATTEMPTS ==> self.bans@.contains_key(ip)
    }

    /// No bans and no failed attempts.
    pub fn new() -> (res: SecurityManager)
        ensures
            res.wf(),
            res.bans@ == Map::<Seq<char>, u64>::empty(),
            res.failed_attempts@ == Map::<Seq<char>, u64>::empty(),
            !res.unsaved,
    {
        SecurityManager { bans: TextMap::new(), failed_attempts: TextMap::new(), unsaved: false }
    }

    /// Bans an address from now on.
    pub fn add_ban(&mut self, ip: String, now: u64)
        requires
            old(self).wf(),
            now + BAN_TTL_SECS <= u64::MAX,
        ensures
            final(self).wf(),
            final(self).bans@ == old(self).bans@.insert(ip@, (now + BAN_TTL_SECS) as u64),
            final(self).failed_attempts == old(self).failed_attempts,
            final(self).unsaved == old(self).unsaved,
    {
        self.bans.insert(ip, now + BAN_TTL_SECS);
    }

    /// The addresses whose bans have ended.
    fn ended(&self, now: u64) -> (res: Vec<String>)
        requires
            self.wf(),
        ensures
            forall|ip: Seq<char>| #[trigger]
                text_map::texts_of(res@).contains(ip) <==> has_ended(self.bans@, ip, now),
    {
        let mut res: Vec<String> = Vec::new();
        let n: usize = self.bans.len();
        let mut i: usize = 0;
        proof {
            self.bans.lemma_keys();
        }
        while i < n
            invariant
                i <= n,
                n == self.bans.spec_len(),
                self.wf(),
                forall|ip: Seq<char>| #[trigger]
                    text_map::texts_of(res@).contains(ip) <==> has_ended(self.bans@, ip, now) && (
                    exists|j: int| 0 <= j < i && #[trigger] self.bans.key_at(j) == ip),
            decreases n - i,
        {
            let (ip, expires_at) = self.bans.entry(i);
            let ghost before = res@;
            let ghost name = ip@;
            if expires_at <= now {
                res.push(ip);
            }
            proof {
                let after = res@;
                assert forall|k: Seq<char>| #[trigger]
                    text_map::texts_of(after).contains(k) <==> has_ended(self.bans@, k, now) && (
                    exists|j: int| 0 <= j < i + 1 && #[trigger] self.bans.key_at(j) == k) by {
                    if text_map::texts_of(after).contains(k) {
                        let j = choose|j: int| 0 <= j < after.len() && (#[trigger] after[j])@ == k;
                        if j < before.len() {
                            assert(before[j]@ == k);
                            assert(text_map::texts_of(before).contains(k));
                        } else {
                            assert(self.bans.key_at(i as int) == k);
                        }
                    }
                    if has_ended(self.bans@, k, now) && (exists|j: int|
                        0 <= j < i + 1 && #[trigger] self.bans.key_at(j) == k) {
                        let j = choose|j: int| 0 <= j < i + 1 && #[trigger] self.bans.key_at(j)
                            == k;
                        if j < i {
                            assert(text_map::texts_of(before).contains(k));
                            let p = choose|p: int|
                                0 <= p < before.len() && (#[trigger] before[p])@ == k;
                            assert(after[p]@ == k);
                        } else {
                            assert(after[before.len() as int]@ == k);
                        }
                    }
                }
            }
            i += 1;
        }
        proof {
            assert forall|ip: Seq<char>| #[trigger]
                text_map::texts_of(res@).contains(ip) <==> has_ended(self.bans@, ip, now) by {
                if has_ended(self.bans@, ip, now) {
                    let j = choose|j: int| 0 <= j < self.bans.spec_len() && self.bans.key_at(j) == ip;
                    assert(self.bans.key_at(j) == ip);
                }
            }
        }
        res
    }

    /// Removes the bans that have ended, with the failed attempts of their addresses. Says
    /// whether there were any.
    pub fn remove_expired(&mut self, now: u64) -> (res: bool)
        requires
            old(self).wf(),
        ensures
            final(self).wf(),
            res == any_ended(old(self).bans@, now),
            final(self).bans@ == active(old(self).bans@, now),
            final(self).failed_attempts@ == forgiven(
                old(self).failed_attempts@,
                old(self).bans@,
                now,
            ),
            final(self).unsaved == old(self).unsaved,
    {
        let ghost bans = self.bans@;
        let ghost attempts = self.failed_attempts@;
        let ended = self.ended(now);
        let n: usize = ended.len();
        let mut i: usize = 0;
        while i < n
            invariant
                i <= n,
                n == ended@.len(),
                self.bans.wf(),
                self.failed_attempts.wf(),
                self.unsaved == old(self).unsaved,
                forall|ip: Seq<char>| #[trigger]
                    self.bans@.contains_key(ip) <==> bans.contains_key(ip) && !listed(ended@, i as int, ip),
                forall|ip: Seq<char>| #[trigger]
                    self.bans@.contains_key(ip) ==> self.bans@[ip] == bans[ip],
                forall|ip: Seq<char>| #[trigger]
                    self.failed_attempts@.contains_key(ip) <==> attempts.contains_key(ip) && !listed(ended@, i as int, ip),
                forall|ip: Seq<char>| #[trigger]
                    self.failed_attempts@.contains_key(ip) ==> self.failed_attempts@[ip]
                        == attempts[ip],
            decreases n - i,
        {
            let ghost bans_before = self.bans@;
            let ghost attempts_before = self.failed_attempts@;
            let ghost gone = ended@[i as int]@;
            let _ = self.bans.remove(ended[i].as_str());
            let _ = self.failed_attempts.remove(ended[i].as_str());
            proof {
                assert forall|ip: Seq<char>| #[trigger]
                    listed(ended@, i + 1, ip) <==> listed(ended@, i as int, ip) || ip == gone by {
                    if ip == gone {
                        assert(ended@[i as int]@ == ip);
                    }
                }
                assert forall|ip: Seq<char>| #[trigger]
                    self.bans@.contains_key(ip) <==> bans.contains_key(ip) && !listed(ended@, i + 1, ip) by {
                    assert(self.bans@.contains_key(ip) <==> bans_before.contains_key(ip) && ip
                        != gone);
                }
                assert forall|ip: Seq<char>| #[trigger]
                    self.failed_attempts@.contains_key(ip) <==> attempts.contains_key(ip) && !listed(ended@, i + 1, ip) by {
                    assert(self.failed_attempts@.contains_key(ip) <==> attempts_before.contains_key(
                        ip,
                    ) && ip != gone);
                }
            }
            i += 1;
        }
        proof {
            assert forall|ip: Seq<char>| #[trigger]
                has_ended(bans, ip, now) <==> listed(ended@, n as int, ip) by {
                assert(text_map::texts_of(ended@).contains(ip) <==> has_ended(bans, ip, now));
            }
            assert forall|ip: Seq<char>| #[trigger]
                self.bans@.contains_key(ip) <==> active(bans, now).contains_key(ip) by {
                assert(has_ended(bans, ip, now) <==> listed(ended@, n as int, ip));
            }
            assert(self.bans@ =~= active(bans, now));
            assert forall|ip: Seq<char>| #[trigger]
                self.failed_attempts@.contains_key(ip) <==> forgiven(
                    attempts,
                    bans,
                    now,
                ).contains_key(ip) by {
                assert(has_ended(bans, ip, now) <==> listed(ended@, n as int, ip));
            }
            assert(self.failed_attempts@ =~= forgiven(attempts, bans, now));
            if n > 0 {
                assert(has_ended(bans, ended@[0]@, now)) by {
                    assert(text_map::texts_of(ended@).contains(ended@[0]@));
                }
            }
        }
        n > 0
    }

    /// Removes the bans that have ended, and notes that there is something to store.
    fn refresh(&mut self, now: u64)
        requires
            old(self).wf(),
        ensures
            final(self).wf(),
            final(self)@ == refreshed(old(self)@, now),
    {
        if self.remove_expired(now) {
            self.unsaved = true;
        }
    }

    /// The bans as they are stored, in no particular order.
    pub fn records(&self) -> (res: Vec<BlacklistRecord>)
        requires
            self.wf(),
        ensures
            records_map(res@) == self.bans@,
            forall|i: int, j: int|
                0 <= i < j < res@.len() ==> (#[trigger] res@[i]).ip@ != (#[trigger] res@[j]).ip@,
    {
        let mut res: Vec<BlacklistRecord> = Vec::new();
        let n: usize = self.bans.len();
        let mut i: usize = 0;
        proof {
            self.bans.lemma_keys();
        }
        while i < n
            invariant
                i <= n,
                n == self.bans.spec_len(),
                self.wf(),
                res@.len() == i,
                forall|j: int|
                    0 <= j < i ==> (#[trigger] res@[j]).ip@ == self.bans.key_at(j)
                        && self.bans@.contains_pair(res@[j].ip@, res@[j].expires_at),
                forall|p: int, q: int|
                    0 <= p < q < self.bans.spec_len() ==> #[trigger] self.bans.key_at(p)
                        != #[trigger] self.bans.key_at(q),
                records_agree(res@, self.bans@),
            decreases n - i,
        {
            let (ip, expires_at) = self.bans.entry(i);
            let ghost before = res@;
            res.push(BlacklistRecord { ip, expires_at });
            proof {
                assert(res@.drop_last() =~= before);
            }
            i += 1;
        }
        proof {
            lemma_records_map(res@, self.bans@);
            assert forall|ip: Seq<char>| #[trigger] self.bans@.contains_key(ip) implies records_map(
                res@,
            ).contains_key(ip) by {
                let j = choose|j: int| 0 <= j < self.bans.spec_len() && self.bans.key_at(j) == ip;
                assert(res@[j].ip@ == ip);
                lemma_record_is_in(res@, j);
            }
            assert(records_map(res@) =~= self.bans@);
        }
        res
    }
}

/// The bans that stored records are; of two for one address the later counts.
pub open spec fn records_map(records: Seq<BlacklistRecord>) -> Map<Seq<char>, u64>
    decreases records.len(),
{
    if records.len() == 0 {
        Map::empty()
    } else {
        records_map(records.drop_last()).insert(records.last().ip@, records.last().expires_at)
    }
}

/// Whether each record is an entry of a map.
spec fn records_agree(records: Seq<BlacklistRecord>, map: Map<Seq<char>, u64>) -> bool {
    forall|i: int|
        0 <= i < records.len() ==> map.contains_pair(
            (#[trigger] records[i]).ip@,
            records[i].expires_at,
        )
}

proof fn lemma_records_map(records: Seq<BlacklistRecord>, map: Map<Seq<char>, u64>)
    requires
        records_agree(records, map),
    ensures
        forall|ip: Seq<char>| #[trigger]
            records_map(records).contains_key(ip) ==> map.contains_pair(ip, records_map(records)[ip]),
    decreases records.len(),
{
    if records.len() > 0 {
        let rest = records.drop_last();
        assert forall|i: int| 0 <= i < rest.len() implies map.contains_pair(
            (#[trigger] rest[i]).ip@,
            rest[i].expires_at,
        ) by {
            assert(rest[i] == records[i]);
        }
        lemma_records_map(rest, map);
        assert(map.contains_pair(
            records[records.len() - 1].ip@,
            records[records.len() - 1].expires_at,
        ));
        assert forall|ip: Seq<char>| #[trigger]
            records_map(records).contains_key(ip) implies map.contains_pair(
            ip,
            records_map(records)[ip],
        ) by {
            if ip != records.last().ip@ {
                assert(records_map(rest).contains_key(ip));
            }
        }
    }
}

proof fn lemma_record_is_in(records: Seq<BlacklistRecord>, i: int)
    requires
        0 <= i < records.len(),
    ensures
        records_map(records).contains_key(records[i].ip@),
    decreases records.len(),
{
    if i < records.len() - 1 {
        assert(records.drop_last()[i] == records[i]);
        lemma_record_is_in(records.drop_last(), i);
    }
}

// ---------------------------------------------------------------------------------------------
// Loading
// ---------------------------------------------------------------------------------------------

/// Bans with a list of addresses added, all until the same time.
pub open spec fn banned_all(
    bans: Map<Seq<char>, u64>,
    ips: Seq<Seq<char>>,
    until: u64,
) -> Map<Seq<char>, u64>
    decreases ips.len(),
{
    if ips.len() == 0 {
        bans
    } else {
        banned_all(bans, ips.drop_last(), until).insert(ips.last(), until)
    }
}

/// Bans with the stored records added that have not ended.
pub open spec fn restored(
    bans: Map<Seq<char>, u64>,
    records: Seq<BlacklistRecord>,
    now: u64,
) -> Map<Seq<char>, u64>
    decreases records.len(),
{
    if records.len() == 0 {
        bans
    } else {
        let before = restored(bans, records.drop_last(), now);
        if records.last().expires_at > now {
            before.insert(records.last().ip@, records.last().expires_at)
        } else {
            before
        }
    }
}

/// What is known once a list of addresses was taken over.
pub open spec fn list_taken(known: SecurityView, ips: Seq<Seq<char>>, now: u64) -> SecurityView {
    SecurityView {
        bans: banned_all(known.bans, ips, (now + 900) as u64),
        attempts: known.attempts,
        unsaved: true,
    }
}

/// What is known once stored bans were taken over.
pub open spec fn records_taken(
    known: SecurityView,
    records: Seq<BlacklistRecord>,
    now: u64,
) -> SecurityView {
    SecurityView { bans: restored(known.bans, records, now), ..known }
}

/// The addresses in the lines of a text file: what is left of each line without the white space
/// around it, where that is not empty.
pub open spec fn addresses_in(lines: Seq<Seq<char>>) -> Seq<Seq<char>>
    decreases lines.len(),
{
    if lines.len() == 0 {
        seq![]
    } else {
        let before = addresses_in(lines.drop_last());
        let ip = text::trimmed(lines.last());
        if ip.len() > 0 {
            before.push(ip)
        } else {
            before
        }
    }
}

impl SecurityManager {
    /// Bans each address of a list from now on.
    fn ban_all(&mut self, ips: Vec<String>, now: u64)
        requires
            old(self).wf(),
            now + BAN_TTL_SECS <= u64::MAX,
        ensures
            final(self).wf(),
            final(self).bans@ == banned_all(
                old(self).bans@,
                json::views(ips@),
                (now + BAN_TTL_SECS) as u64,
            ),
            final(self).failed_attempts == old(self).failed_attempts,
            final(self).unsaved == old(self).unsaved,
    {
        let ghost all = json::views(ips@);
        let ghost until = (now + BAN_TTL_SECS) as u64;
        let n: usize = ips.len();
        let mut i: usize = 0;
        assert(all.take(0) =~= seq![]);
        while i < n
            invariant
                i <= n,
                n == ips@.len(),
                all == json::views(ips@),
                now + BAN_TTL_SECS <= u64::MAX,
                until == now + BAN_TTL_SECS,
                self.wf(),
                self.bans@ == banned_all(old(self).bans@, all.take(i as int), until),
                self.failed_attempts == old(self).failed_attempts,
                self.unsaved == old(self).unsaved,
            decreases n - i,
        {
            self.add_ban(text::copy_text(ips[i].as_str()), now);
            proof {
                assert(all.take(i + 1).drop_last() =~= all.take(i as int));
                assert(all.take(i + 1).last() == ips@[i as int]@);
            }
            i += 1;
        }
        assert(all.take(n as int) =~= all);
    }

    /// Takes over stored records that have not ended.
    fn restore(&mut self, records: Vec<BlacklistRecord>, now: u64)
        requires
            old(self).wf(),
        ensures
            final(self).wf(),
            final(self).bans@ == restored(old(self).bans@, records@, now),
            final(self).failed_attempts == old(self).failed_attempts,
            final(self).unsaved == old(self).unsaved,
    {
        let n: usize = records.len();
        let mut i: usize = 0;
        assert(records@.take(0) =~= seq![]);
        while i < n
            invariant
                i <= n,
                n == records@.len(),
                self.wf(),
                self.bans@ == restored(old(self).bans@, records@.take(i as int), now),
                self.failed_attempts == old(self).failed_attempts,
                self.unsaved == old(self).unsaved,
            decreases n - i,
        {
            let expires_at: u64 = records[i].expires_at;
            if expires_at > now {
                self.bans.insert(text::copy_text(records[i].ip.as_str()), expires_at);
            }
            proof {
                assert(records@.take(i + 1).drop_last() =~= records@.take(i as int));
                assert(records@.take(i + 1).last() == records@[i as int]);
            }
            i += 1;
        }
        assert(records@.take(n as int) =~= records@);
    }

    /// Takes over the contents of the stored list. `records` is what the contents are as records;
    /// where they are none, they may be a plain list of addresses, which are banned anew. Says
    /// whether the contents were understood.
    pub fn load_blacklist(
        &mut self,
        records: Option<Vec<BlacklistRecord>>,
        content: &str,
        now: u64,
    ) -> (res: bool)
        requires
            old(self).wf(),
            now + BAN_TTL_SECS <= u64::MAX,
        ensures
            final(self).wf(),
            records matches Some(records) ==> final(self)@ == records_taken(
                old(self)@,
                records@,
                now,
            ),
            records is None ==> final(self)@ == match json::parsed_texts(content@) {
                Some(ips) => list_taken(old(self)@, ips, now),
                None => old(self)@,
            },
            final(self).failed_attempts == old(self).failed_attempts,
            match records {
                Some(records) => {
                    &&& res
                    &&& final(self).bans@ == restored(old(self).bans@, records@, now)
                    &&& final(self).unsaved == old(self).unsaved
                },
                None => match json::parsed_texts(content@) {
                    Some(ips) => {
                        &&& res
                        &&& final(self).bans@ == banned_all(
                            old(self).bans@,
                            ips,
                            (now + BAN_TTL_SECS) as u64,
                        )
                        &&& final(self).unsaved
                    },
                    None => !res && *final(self) == *old(self),
                },
            },
    {
        match records {
            Some(records) => {
                self.restore(records, now);
                true
            },
            None => match json::parse_texts(content) {
                Some(ips) => {
                    self.load_addresses(ips, now);
                    true
                },
                None => false,
            },
        }
    }

    /// Bans each address of a plain list from now on, to be stored.
    pub fn load_addresses(&mut self, ips: Vec<String>, now: u64)
        requires
            old(self).wf(),
            now + BAN_TTL_SECS <= u64::MAX,
        ensures
            final(self).wf(),
            final(self)@ == list_taken(old(self)@, json::views(ips@), now),
            final(self).failed_attempts == old(self).failed_attempts,
            final(self).bans@ == banned_all(
                old(self).bans@,
                json::views(ips@),
                (now + BAN_TTL_SECS) as u64,
            ),
            final(self).unsaved,
    {
        self.ban_all(ips, now);
        self.unsaved = true;
    }

    /// Takes over the contents of the older text file, one address per line.
    pub fn load_blacklist_text(&mut self, content: &str, now: u64)
        requires
            old(self).wf(),
            now + BAN_TTL_SECS <= u64::MAX,
        ensures
            final(self).wf(),
            final(self)@ == list_taken(
                old(self)@,
                addresses_in(text::text_lines(content@)),
                now,
            ),
            final(self).failed_attempts == old(self).failed_attempts,
            final(self).bans@ == banned_all(
                old(self).bans@,
                addresses_in(text::text_lines(content@)),
                (now + BAN_TTL_SECS) as u64,
            ),
            final(self).unsaved,
    {
        let chars = text::to_chars(content);
        let lines = text::lines(chars.as_slice());
        let ghost all = text::contents(lines@);
        let mut ips: Vec<String> = Vec::new();
        let n: usize = lines.len();
        let mut i: usize = 0;
        proof {
            assert(all.take(0) =~= seq![]);
            assert(json::views(ips@) =~= seq![]);
        }
        while i < n
            invariant
                i <= n,
                n == lines@.len(),
                all == text::contents(lines@),
                json::views(ips@) == addresses_in(all.take(i as int)),
            decreases n - i,
        {
            let ghost before = ips@;
            let ip = text::trim(lines[i]);
            if ip.len() > 0 {
                ips.push(text::from_chars(ip));
            }
            proof {
                assert(all.take(i + 1).drop_last() =~= all.take(i as int));
                assert(all.take(i + 1).last() == lines@[i as int]@);
                if ip@.len() > 0 {
                    assert(json::views(ips@) =~= json::views(before).push(ip@));
                }
            }
            i += 1;
        }
        assert(all.take(n as int) =~= all);
        self.load_addresses(ips, now);
    }
}

// ---------------------------------------------------------------------------------------------
// Asking and reporting
// ---------------------------------------------------------------------------------------------

/// Whether an address is banned now.
pub open spec fn banned(known: SecurityView, ip: Seq<char>, now: u64) -> bool {
    active(known.bans, now).contains_key(ip)
}

/// Whether an address is banned. Bans that have ended are removed first.
pub fn is_blacklisted(sm: &mut SecurityManager, ip: &str, now: u64) -> (res: bool)
    requires
        old(sm).wf(),
    ensures
        final(sm).wf(),
        final(sm)@ == refreshed(old(sm)@, now),
        res == banned(old(sm)@, ip@, now),
{
    sm.refresh(now);
    match sm.bans.get(ip) {
        Some(_) => true,
        None => false,
    }
}

/// Counts a failed attempt of an address.
pub fn report_failure(sm: &mut SecurityManager, ip: &str, now: u64)
    requires
        old(sm).wf(),
        now + BAN_TTL_SECS <= u64::MAX,
    ensures
        final(sm).wf(),
        final(sm)@ == failed(old(sm)@, ip@, now),
{
    sm.refresh(now);
    if let Some(_) = sm.bans.get(ip) {
        return;
    }
    let count: u64 = match sm.failed_attempts.get(ip) {
        Some(count) => count + 1,
        None => 1,
    };
    if count >= MAX_FAILED_ATTEMPTS {
        sm.add_ban(text::copy_text(ip), now);
        sm.unsaved = true;
    }
    sm.failed_attempts.insert(text::copy_text(ip), count);
}

/// Forgets the failed attempts of an address.
pub fn report_success(sm: &mut SecurityManager, ip: &str)
    requires
        old(sm).wf(),
    ensures
        final(sm).wf(),
        final(sm)@ == succeeded(old(sm)@, ip@),
{
    let _ = sm.failed_attempts.remove(ip);
}

/// The banned addresses in order.
pub fn get_blacklist(sm: &mut SecurityManager, now: u64) -> (res: Vec<String>)
    requires
        old(sm).wf(),
    ensures
        final(sm).wf(),
        final(sm)@ == refreshed(old(sm)@, now),
        text_map::in_order(res@),
        text_map::texts_of(res@) == active(old(sm).bans@, now).dom(),
{
    sm.refresh(now);
    sm.bans.sorted_keys()
}

/// Bans an address. Says whether it was not banned before.
pub fn add_to_blacklist(sm: &mut SecurityManager, ip: String, now: u64) -> (res: bool)
    requires
        old(sm).wf(),
        now + BAN_TTL_SECS <= u64::MAX,
    ensures
        final(sm).wf(),
        res == !banned(old(sm)@, ip@, now),
        final(sm)@ == ban_added(old(sm)@, ip@, now),
{
    sm.refresh(now);
    match sm.bans.get(ip.as_str()) {
        Some(_) => false,
        None => {
            sm.add_ban(ip, now);
            sm.unsaved = true;
            true
        },
    }
}

/// Ends the ban of an address, and forgets its failed attempts. Says whether there was one.
pub fn remove_from_blacklist(sm: &mut SecurityManager, ip: &str) -> (res: bool)
    requires
        old(sm).wf(),
    ensures
        final(sm).wf(),
        res == old(sm).bans@.contains_key(ip@),
        final(sm)@ == ban_removed(old(sm)@, ip@),
{
    if sm.bans.remove(ip) {
        let _ = sm.failed_attempts.remove(ip);
        sm.unsaved = true;
        true
    } else {
        assert(sm.bans@ =~= old(sm).bans@);
        false
    }
}

// ---------------------------------------------------------------------------------------------
// Laws
// ---------------------------------------------------------------------------------------------

/// One failed attempt after another, each at its time.
pub open spec fn failures_reported(
    states: Seq<SecurityView>,
    ip: Seq<char>,
    times: Seq<u64>,
) -> bool {
    &&& states.len() == times.len() + 1
    &&& forall|i: int|
        0 <= i < times.len() ==> states[i + 1] == #[trigger] failed(states[i], ip, times[i])
}

proof fn lemma_failures_add_up(
    states: Seq<SecurityView>,
    ip: Seq<char>,
    times: Seq<u64>,
    n: int,
)
    requires
        failures_reported(states, ip, times),
        times.len() > 0,
        !banned(states[0], ip, times[0]),
        failures(refreshed(states[0], times[0]).attempts, ip) == 0,
        0 < n < MAX_FAILED_ATTEMPTS,
        n <= times.len(),
    ensures
        failures(states[n].attempts, ip) == n,
        !states[n].bans.contains_key(ip),
    decreases n,
{
    if n > 1 {
        lemma_failures_add_up(states, ip, times, n - 1);
    }
    assert(states[n] == failed(states[n - 1], ip, times[n - 1]));
}

/// Ten failed attempts in a row ban an address that is not banned and of which no earlier failure
/// counts, as of one whose ban has ended: it is banned from the last attempt on for a quarter of an
/// hour and not longer, and nine do not ban it.
pub proof fn law_ten_failures_ban(
    states: Seq<SecurityView>,
    ip: Seq<char>,
    times: Seq<u64>,
    now: u64,
)
    requires
        failures_reported(states, ip, times),
        times.len() == MAX_FAILED_ATTEMPTS,
        !banned(states[0], ip, times[0]),
        failures(refreshed(states[0], times[0]).attempts, ip) == 0,
        times.last() + BAN_TTL_SECS <= u64::MAX,
    ensures
        banned(states[10], ip, now) <==> now < times.last() + BAN_TTL_SECS,
        forall|n: int| 0 < n <= 9 ==> !banned(#[trigger] states[n], ip, now),
{
    assert forall|n: int| 0 < n <= 9 implies !banned(#[trigger] states[n], ip, now) by {
        lemma_failures_add_up(states, ip, times, n);
    }
    lemma_failures_add_up(states, ip, times, 9);
    assert(states[10] == failed(states[9], ip, times[9]));
}

/// Of an address whose ban has ended no earlier failure counts.
pub proof fn law_ended_ban_forgives(known: SecurityView, ip: Seq<char>, now: u64)
    requires
        has_ended(known.bans, ip, now),
    ensures
        !banned(known, ip, now),
        failures(refreshed(known, now).attempts, ip) == 0,
{
}

/// A success wipes the slate clean: the failures that were counted before it do not matter. After
/// it, nine failures in a row bring no ban, and ten do.
pub proof fn law_success_forgives(
    known: SecurityView,
    states: Seq<SecurityView>,
    ip: Seq<char>,
    times: Seq<u64>,
    now: u64,
)
    requires
        failures_reported(states, ip, times),
        times.len() == MAX_FAILED_ATTEMPTS,
        states[0] == succeeded(known, ip),
        !banned(known, ip, times[0]),
        times.last() + BAN_TTL_SECS <= u64::MAX,
    ensures
        banned(states[10], ip, now) <==> now < times.last() + BAN_TTL_SECS,
        forall|n: int| 0 < n <= 9 ==> !banned(#[trigger] states[n], ip, now),
{
    law_ten_failures_ban(states, ip, times, now);
}

/// An address that is taken off the list is not banned any more, and its failures are forgotten.
pub proof fn law_removed_ban_is_over(known: SecurityView, ip: Seq<char>, now: u64)
    requires
        known.bans.contains_key(ip),
    ensures
        !banned(ban_removed(known, ip), ip, now),
        failures(ban_removed(known, ip).attempts, ip) == 0,
{
}

/// An address that is put on the list is banned for a quarter of an hour, unless it was banned
/// before.
pub proof fn law_added_ban_holds(known: SecurityView, ip: Seq<char>, now: u64, later: u64)
    requires
        now + BAN_TTL_SECS <= u64::MAX,
        !banned(known, ip, now),
    ensures
        banned(ban_added(known, ip, now), ip, later) <==> later < now + BAN_TTL_SECS,
{
}

// ---------------------------------------------------------------------------------------------
// Who is banned, and for how long
// ---------------------------------------------------------------------------------------------

/// An address is banned exactly while its ban has not ended.
pub proof fn law_banned_until_the_end(known: SecurityView, ip: Seq<char>, now: u64)
    ensures
        banned(known, ip, now) <==> known.bans.contains_key(ip) && now < known.bans[ip],
{
}

/// A failure of an address without a ban adds one to its count; the tenth bans it, for fifteen
/// minutes from then. A failure during a ban does not prolong it.
pub proof fn law_failures_are_counted(known: SecurityView, ip: Seq<char>, now: u64, later: u64)
    requires
        now + 900 <= u64::MAX,
        known.attempts.contains_key(ip) ==> known.attempts[ip] < u64::MAX,
    ensures
        ({
            let count = if known.attempts.contains_key(ip) {
                known.attempts[ip] as int
            } else {
                0
            };
            let after = failed(known, ip, now);
            &&& !known.bans.contains_key(ip) ==> after.attempts.contains_key(ip)
                && after.attempts[ip] == count + 1
            &&& !known.bans.contains_key(ip) && count < 9 ==> !banned(after, ip, later)
            &&& !known.bans.contains_key(ip) && count >= 9 ==> (banned(after, ip, later) <==> later
                < now + 900)
            &&& known.bans.contains_key(ip) && known.bans[ip] > now ==> after.bans.contains_key(ip)
                && after.bans[ip] == known.bans[ip]
        }),
{
}

/// What is counted of one address changes nothing for another: neither its ban nor its count,
/// but that a ban that has ended is gone with its count.
pub proof fn law_other_addresses_are_left_alone(
    known: SecurityView,
    ip: Seq<char>,
    other: Seq<char>,
    now: u64,
    later: u64,
)
    requires
        other != ip,
        now <= later,
    ensures
        banned(failed(known, ip, now), other, later) == banned(known, other, later),
        banned(succeeded(known, ip), other, later) == banned(known, other, later),
        banned(ban_added(known, ip, now), other, later) == banned(known, other, later),
        banned(ban_removed(known, ip), other, later) == banned(known, other, later),
        banned(refreshed(known, now), other, later) == banned(known, other, later),
        !has_ended(known.bans, other, now) ==> {
            let count = failures(known.attempts, other);
            &&& failures(failed(known, ip, now).attempts, other) == count
            &&& failures(succeeded(known, ip).attempts, other) == count
            &&& failures(ban_added(known, ip, now).attempts, other) == count
            &&& failures(ban_removed(known, ip).attempts, other) == count
        },
{
}

/// A success forgets the failures of its address and touches no ban; an operator's ban lasts
/// fifteen minutes, and one that holds already stays as it is.
pub proof fn law_success_and_ban(known: SecurityView, ip: Seq<char>, now: u64, later: u64)
    requires
        now + 900 <= u64::MAX,
    ensures
        !succeeded(known, ip).attempts.contains_key(ip),
        succeeded(known, ip).bans == known.bans,
        banned(ban_added(known, ip, now), ip, now),
        !banned(known, ip, now) ==> ban_added(known, ip, now).bans[ip] == now + 900,
        banned(known, ip, now) ==> ban_added(known, ip, now).bans[ip] == known.bans[ip],
        !banned(ban_removed(known, ip), ip, later),
{
}

/// Whatever changes the bans, it is noted that they are to be stored; nothing unsets the note.
pub proof fn law_changed_bans_are_stored(known: SecurityView, ip: Seq<char>, now: u64)
    ensures
        failed(known, ip, now).bans != known.bans ==> failed(known, ip, now).unsaved,
        ban_added(known, ip, now).bans != known.bans ==> ban_added(known, ip, now).unsaved,
        ban_removed(known, ip).bans != known.bans ==> ban_removed(known, ip).unsaved,
        refreshed(known, now).bans != known.bans ==> refreshed(known, now).unsaved,
        known.unsaved ==> failed(known, ip, now).unsaved && succeeded(known, ip).unsaved
            && ban_added(known, ip, now).unsaved && ban_removed(known, ip).unsaved && refreshed(
            known,
            now,
        ).unsaved,
{
    let kept = active(known.bans, now);
    if !any_ended(known.bans, now) {
        assert forall|ip: Seq<char>| known.bans.contains_key(ip) implies #[trigger] known.bans[ip]
            > now by {
            assert(!has_ended(known.bans, ip, now));
        }
        assert(kept =~= known.bans);
    }
}

/// Bans that were stored and are loaded again are those that have not ended meanwhile, each with
/// the end that it had.
pub proof fn law_stored_bans_come_back(records: Seq<BlacklistRecord>, now: u64)
    requires
        forall|i: int, j: int|
            0 <= i < j < records.len() ==> (#[trigger] records[i]).ip@ != (#[trigger] records[j]).ip@,
    ensures
        restored(Map::<Seq<char>, u64>::empty(), records, now) == active(
            records_map(records),
            now,
        ),
        forall|i: int|
            0 <= i < records.len() ==> records_map(records).contains_key(
                (#[trigger] records[i]).ip@,
            ) && records_map(records)[records[i].ip@] == records[i].expires_at,
        forall|ip: Seq<char>| #[trigger]
            records_map(records).contains_key(ip) ==> exists|i: int|
                0 <= i < records.len() && (#[trigger] records[i]).ip@ == ip,
    decreases records.len(),
{
    let none = Map::<Seq<char>, u64>::empty();
    if records.len() == 0 {
        assert(restored(none, records, now) =~= active(records_map(records), now));
    } else {
        let before = records.drop_last();
        assert forall|i: int, j: int| 0 <= i < j < before.len() implies (#[trigger] before[i]).ip@
            != (#[trigger] before[j]).ip@ by {
            assert(records[i].ip@ != records[j].ip@);
        }
        law_stored_bans_come_back(before, now);
        let last = records.last();
        assert(!records_map(before).contains_key(last.ip@)) by {
            if records_map(before).contains_key(last.ip@) {
                let i = choose|i: int|
                    0 <= i < before.len() && (#[trigger] before[i]).ip@ == last.ip@;
                assert(records[i].ip@ != records[records.len() - 1].ip@);
            }
        }
        assert(restored(none, records, now) =~= active(records_map(records), now));
        assert forall|i: int| 0 <= i < records.len() implies records_map(records).contains_key(
            (#[trigger] records[i]).ip@,
        ) && records_map(records)[records[i].ip@] == records[i].expires_at by {
            if i < before.len() {
                assert(before[i] == records[i]);
                assert(records[i].ip@ != records[records.len() - 1].ip@);
            }
        }
        assert forall|ip: Seq<char>| #[trigger] records_map(records).contains_key(ip) implies exists|
            i: int,
        | 0 <= i < records.len() && (#[trigger] records[i]).ip@ == ip by {
            if ip == last.ip@ {
                assert(records[records.len() - 1].ip@ == ip);
            } else {
                let i = choose|i: int| 0 <= i < before.len() && (#[trigger] before[i]).ip@ == ip;
                assert(records[i].ip@ == ip);
            }
        }
    }
}

/// A list of addresses that is taken over bans each of them until the given time, and leaves
/// every other ban as it is.
pub proof fn law_listed_addresses_are_banned(
    bans: Map<Seq<char>, u64>,
    ips: Seq<Seq<char>>,
    until: u64,
    ip: Seq<char>,
)
    ensures
        banned_all(bans, ips, until).contains_key(ip) <==> bans.contains_key(ip) || ips.contains(ip),
        ips.contains(ip) ==> banned_all(bans, ips, until)[ip] == until,
        !ips.contains(ip) && bans.contains_key(ip) ==> banned_all(bans, ips, until)[ip] == bans[ip],
    decreases ips.len(),
{
    if ips.len() > 0 {
        let before = ips.drop_last();
        law_listed_addresses_are_banned(bans, before, until, ip);
        if before.contains(ip) {
            let i = choose|i: int| 0 <= i < before.len() && before[i] == ip;
            assert(ips[i] == ip);
        }
        if ips.contains(ip) {
            let i = choose|i: int| 0 <= i < ips.len() && ips[i] == ip;
            if i < before.len() {
                assert(before[i] == ip);
            }
        }
        if ip == ips.last() {
            assert(ips[ips.len() - 1] == ip);
        }
    }
}

/// The addresses of a list in text are its lines without the white space around them; lines of
/// white space name none.
pub proof fn law_addresses_of_lines(lines: Seq<Seq<char>>, ip: Seq<char>)
    ensures
        addresses_in(lines).contains(ip) <==> ip.len() > 0 && exists|i: int|
            0 <= i < lines.len() && text::trimmed(#[trigger] lines[i]) == ip,
    decreases lines.len(),
{
    if lines.len() > 0 {
        let before = lines.drop_last();
        law_addresses_of_lines(before, ip);
        let found = addresses_in(before);
        let all = addresses_in(lines);
        if all.contains(ip) {
            let i = choose|i: int| 0 <= i < all.len() && all[i] == ip;
            if i < found.len() {
                assert(found[i] == ip);
                let j = choose|j: int|
                    0 <= j < before.len() && text::trimmed(#[trigger] before[j]) == ip;
                assert(text::trimmed(lines[j]) == ip);
            } else {
                assert(text::trimmed(lines[lines.len() - 1]) == ip);
            }
        }
        if ip.len() > 0 && exists|i: int|
            0 <= i < lines.len() && text::trimmed(#[trigger] lines[i]) == ip {
            let i = choose|i: int| 0 <= i < lines.len() && text::trimmed(#[trigger] lines[i]) == ip;
            if i < before.len() {
                assert(text::trimmed(before[i]) == ip);
                let j = choose|j: int| 0 <= j < found.len() && found[j] == ip;
                assert(all[j] == ip);
            } else {
                assert(all[all.len() - 1] == ip);
            }
        }
    }
}

/// A list that is taken over bans its addresses for fifteen minutes and is to be stored; stored
/// bans that are taken over need not be. Failures stay counted as they are.
pub proof fn law_lists_are_taken_over(
    known: SecurityView,
    ips: Seq<Seq<char>>,
    ip: Seq<char>,
    records: Seq<BlacklistRecord>,
    now: u64,
    later: u64,
)
    requires
        now + 900 <= u64::MAX,
    ensures
        list_taken(known, ips, now).unsaved,
        ips.contains(ip) ==> (banned(list_taken(known, ips, now), ip, later) <==> later < now
            + 900),
        !ips.contains(ip) ==> banned(list_taken(known, ips, now), ip, later) == banned(
            known,
            ip,
            later,
        ),
        list_taken(known, ips, now).attempts == known.attempts,
        records_taken(known, records, now).attempts == known.attempts,
        records_taken(known, records, now).unsaved == known.unsaved,
{
    law_listed_addresses_are_banned(known.bans, ips, (now + 900) as u64, ip);
}

} // verus!
