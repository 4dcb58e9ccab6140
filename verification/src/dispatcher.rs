//! Spreads events over the workers: whitelisted sources are dropped, every
//! other event goes to the worker chosen by a hash of its source address.
use crate::config::{whitelist_admits, Config};
use crate::event::NetworkEvent;
use crate::net::IpAddress;
use std::sync::Arc;
use tokio::sync::mpsc::Sender;
use vstd::prelude::*;

verus! {

/// The FNV-1a offset basis.
pub const FNV_OFFSET: u64 = 0xcbf29ce484222325;

/// The FNV-1a prime.
pub const FNV_PRIME: u64 = 0x100000001b3;

/// The 64-bit FNV-1a hash of a byte sequence: from the offset basis, each
/// byte is xored in and the hash multiplied by the prime, modulo 2^64.
pub open spec fn fnv1a(bytes: Seq<u8>) -> u64
    decreases bytes.len(),
{
    if bytes.len() == 0 {
        FNV_OFFSET
    } else {
        ((((fnv1a(bytes.drop_last()) ^ (bytes.last() as u64)) as nat) * (FNV_PRIME as nat))
            % 0x1_0000_0000_0000_0000) as u64
    }
}

/// The worker an address goes to among `workers`: its octets' FNV-1a hash
/// modulo the number of workers.
pub open spec fn worker_for(ip: IpAddress, workers: nat) -> nat {
    (fnv1a(ip.octets()) as nat) % workers
}

/// The octet at position `i` (most significant first) of an address.
fn octet_at(ip: &IpAddress, i: usize) -> (b: u8)
    requires
        i < ip.octets().len(),
    ensures
        b == ip.octets()[i as int],
{
    match *ip {
        IpAddress::V4(a) => {
            #[verifier::truncate]
            let b = (a >> ((8 * (3 - i)) as u32)) as u8;
            b
        },
        IpAddress::V6(a) => {
            #[verifier::truncate]
            let b = (a >> ((8 * (15 - i)) as u32)) as u8;
            b
        },
    }
}

/// The FNV-1a hash of an address's octets.
pub fn address_hash(ip: &IpAddress) -> (h: u64)
    ensures
        h == fnv1a(ip.octets()),
{
    let n: usize = match ip {
        IpAddress::V4(_) => 4,
        IpAddress::V6(_) => 16,
    };
    let ghost octets = ip.octets();
    let mut hash: u64 = FNV_OFFSET;
    let mut i: usize = 0;
    while i < n
        invariant
            n == octets.len(),
            octets == ip.octets(),
            i <= n,
            hash == fnv1a(octets.take(i as int)),
        decreases n - i,
    {
        let byte = octet_at(ip, i);
        proof {
            assert(octets.take(i + 1).drop_last() =~= octets.take(i as int));
        }
        hash = hash ^ (byte as u64);
        hash = hash.wrapping_mul(FNV_PRIME);
        i = i + 1;
    }
    assert(octets.take(n as int) =~= octets);
    hash
}

/// The event dispatcher: the configuration (for its whitelist) and one
/// channel per worker.
pub struct Dispatcher {
    config: Arc<Config>,
    worker_senders: Vec<Sender<NetworkEvent>>,
}

impl Dispatcher {
    /// The configuration the dispatcher filters by.
    pub closed spec fn config_view(&self) -> Config {
        *self.config
    }

    /// The workers' channels, in order.
    pub closed spec fn channels(&self) -> Seq<Sender<NetworkEvent>> {
        self.worker_senders@
    }

    /// The number of workers.
    pub open spec fn workers(&self) -> nat {
        self.channels().len()
    }

    /// A dispatcher over the given workers' channels.
    pub fn new(config: Arc<Config>, worker_senders: Vec<Sender<NetworkEvent>>) -> (d: Self)
        ensures
            d.config_view() == *config,
            d.channels() == worker_senders@,
    {
        Dispatcher { config, worker_senders }
    }

    /// The number of workers.
    pub fn worker_count(&self) -> (r: usize)
        ensures
            r == self.workers(),
    {
        self.worker_senders.len()
    }

    /// Whether the configuration's whitelist covers `ip`.
    pub fn is_whitelisted(&self, ip: &IpAddress) -> (r: bool)
        ensures
            r == whitelist_admits(self.config_view().whitelist.cidr@, *ip),
    {
        self.config.is_whitelisted(ip)
    }

    /// The worker the event goes to: the FNV-1a hash of its source address's
    /// octets modulo the number of workers, so one source always goes to
    /// one worker.
    pub fn select_worker(&self, event: &NetworkEvent) -> (r: usize)
        requires
            self.workers() > 0,
        ensures
            r == worker_for(event.src_ip, self.workers()),
            r < self.workers(),
    {
        let hash = address_hash(&event.src_ip);
        let n = self.worker_senders.len() as u64;
        (hash % n) as usize
    }

    /// Where the event goes: nowhere when its source is whitelisted, else the
    /// worker `select_worker` picks.
    pub fn route(&self, event: &NetworkEvent) -> (r: Option<usize>)
        requires
            self.workers() > 0,
        ensures
            r == (if whitelist_admits(self.config_view().whitelist.cidr@, event.src_ip) {
                None
            } else {
                Some(worker_for(event.src_ip, self.workers()) as usize)
            }),
    {
        if self.is_whitelisted(&event.src_ip) {
            None
        } else {
            Some(self.select_worker(event))
        }
    }

    /// The channel of worker `i`.
    pub fn sender(&self, i: usize) -> (s: &Sender<NetworkEvent>)
        requires
            i < self.workers(),
        ensures
            *s == self.channels()[i as int],
    {
        &self.worker_senders[i]
    }
}

/// One source address always goes to one worker, whatever else the events
/// hold, and that worker exists.
pub proof fn lemma_same_source_same_worker(a: NetworkEvent, b: NetworkEvent, workers: nat)
    requires
        a.src_ip == b.src_ip,
        workers > 0,
    ensures
        worker_for(a.src_ip, workers) == worker_for(b.src_ip, workers),
        worker_for(a.src_ip, workers) < workers,
{
}

} // verus!
