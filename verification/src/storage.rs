//! The records the store keeps of attacks and bans, and which of them a
//! clean-up deletes. Times are whole seconds since the Unix epoch; the
//! database itself is the program's.
use crate::event::BanAction;
use crate::text::{ip_text, ip_to_string, owned};
use vstd::prelude::*;

verus! {

/// Seconds in a day.
pub const SECONDS_PER_DAY: i64 = 86400;

/// An attack seen: where from, over which protocol and port, the rule it
/// matched, how many events, and when it was recorded.
#[derive(Debug, Clone)]
pub struct AttackEvent {
    pub id: i64,
    pub source_ip: String,
    pub protocol: String,
    pub port: u16,
    pub rule: String,
    pub count: u32,
    pub created_at: i64,
}

/// A ban made: the address, how long, why, its status (`active` when made),
/// and when it was recorded.
#[derive(Debug, Clone)]
pub struct BanRecord {
    pub id: i64,
    pub ip: String,
    pub duration: u32,
    pub reason: String,
    pub status: String,
    pub created_at: i64,
}

impl AttackEvent {
    /// The record of an attack made at `now`, before the store gives it an
    /// id (0 until then).
    pub fn recorded(
        source_ip: &str,
        protocol: &str,
        port: u16,
        rule: &str,
        count: u32,
        now: i64,
    ) -> (r: Self)
        ensures
            r.id == 0,
            r.source_ip@ == source_ip@,
            r.protocol@ == protocol@,
            r.port == port,
            r.rule@ == rule@,
            r.count == count,
            r.created_at == now,
    {
        AttackEvent {
            id: 0,
            source_ip: owned(source_ip),
            protocol: owned(protocol),
            port,
            rule: owned(rule),
            count,
            created_at: now,
        }
    }
}

impl BanRecord {
    /// The record of `ban` made at `now`, before the store gives it an id
    /// (0 until then): the address as text, the duration and reason of the
    /// ban, and the status `active`.
    pub fn for_ban(ban: &BanAction, now: i64) -> (r: Self)
        ensures
            r.id == 0,
            r.ip@ == ip_text(ban.src_ip),
            r.duration == ban.duration,
            r.reason@ == ban.reason@,
            r.status@ == "active"@,
            r.created_at == now,
    {
        BanRecord {
            id: 0,
            ip: ip_to_string(&ban.src_ip),
            duration: ban.duration,
            reason: ban.reason.clone(),
            status: owned("active"),
            created_at: now,
        }
    }
}

/// The time before which attacks are deleted when those of the last `days`
/// days are kept.
pub open spec fn spec_cleanup_cutoff(now: int, days: int) -> int {
    now - days * SECONDS_PER_DAY
}

/// The time before which a clean-up at `now` deletes attacks, keeping
/// those of the last `days` days.
pub fn cleanup_cutoff(now: i64, days: u32) -> (r: i64)
    requires
        spec_cleanup_cutoff(now as int, days as int) >= i64::MIN,
    ensures
        r == spec_cleanup_cutoff(now as int, days as int),
{
    now - (days as i64) * SECONDS_PER_DAY
}

/// Whether a clean-up with this cutoff deletes the attack: it was recorded
/// before the cutoff.
pub fn is_expired(event: &AttackEvent, cutoff: i64) -> (r: bool)
    ensures
        r == (event.created_at < cutoff),
{
    event.created_at < cutoff
}

/// A clean-up that keeps more days deletes no more: an attack it deletes
/// is deleted by one that keeps fewer days at the same time.
pub proof fn lemma_cleanup_monotone(now: int, fewer: int, more: int, created_at: int)
    requires
        0 <= fewer <= more,
        created_at < spec_cleanup_cutoff(now, more),
    ensures
        created_at < spec_cleanup_cutoff(now, fewer),
{
    assert(fewer * SECONDS_PER_DAY <= more * SECONDS_PER_DAY) by (nonlinear_arith)
        requires
            0 <= fewer <= more,
    ;
}

} // verus!
