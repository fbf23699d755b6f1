//! Turning one second's system readings into the four displayed figures:
//! CPU percentage, memory percentage, and download and upload rates.
use vstd::prelude::*;

use crate::text::{
    chars_of, contains, contains_text, has_prefix, lowercase, lowercase_of, occurs_at, starts_with,
};

verus! {

/// The desktop platform the monitor runs on; it decides which network
/// interfaces count and where memory figures come from.
#[derive(Clone, Copy, PartialEq, Eq, Debug)]
pub enum Platform {
    MacOs,
    Linux,
    Windows,
}

/// One network interface as read in the last refresh: its name and the
/// bytes it received and transmitted since the refresh before.
pub struct InterfaceSample {
    pub name: String,
    pub received: u64,
    pub transmitted: u64,
}

/// What one refresh of the system gives the monitor.
pub struct Sample {
    /// Global CPU usage, already rounded to a whole percentage.
    pub cpu_percent: i32,
    /// `(used, total)` memory in bytes, or `None` where reading them failed.
    pub memory: Option<(u64, u64)>,
    /// Every interface the system lists, in the order it lists them.
    pub interfaces: Vec<InterfaceSample>,
}

/// The four figures the readout shows.
#[derive(Clone, Copy, PartialEq, Eq, Debug)]
pub struct Metrics {
    pub cpu_percent: i32,
    pub mem_percent: i32,
    pub download_bps: u64,
    pub upload_bps: u64,
}

/// What the monitor remembers between refreshes: whether the network
/// counters have been read before (the first rate is shown as zero).
pub struct MonitorState {
    pub has_net_history: bool,
}

// ---------------------------------------------------------------------------
// Memory
// ---------------------------------------------------------------------------

/// The `(used, total)` pair used when a reading failed is `(0, 1)`.
pub open spec fn memory_figures(reading: Option<(u64, u64)>) -> (u64, u64) {
    match reading {
        Some(p) => p,
        None => (0, 1),
    }
}

/// Used memory as a whole percentage of the total (rounded down), converted
/// to `i32` as `as` does; zero when the total is zero.
pub open spec fn mem_percent_of(used: u64, total: u64) -> i32 {
    if total > 0 {
        ((used * 100) / (total as int)) as i32
    } else {
        0
    }
}

/// `used * 100` fits in `u64` whenever it is computed.
pub open spec fn mem_percent_defined(used: u64, total: u64) -> bool {
    total == 0 || used * 100 <= u64::MAX
}

/// Memory that is not over the total is between 0% and 100% of it.
pub proof fn mem_percent_within_bounds(used: u64, total: u64)
    requires
        used <= total,
    ensures
        0 <= mem_percent_of(used, total) <= 100,
{
    if total > 0 {
        let v = (used * 100) / (total as int);
        assert(v <= 100) by (nonlinear_arith)
            requires
                used <= total,
                total > 0,
                v == (used * 100) / (total as int),
        ;
        assert(v >= 0) by (nonlinear_arith)
            requires
                total > 0,
                used >= 0,
                v == (used * 100) / (total as int),
        ;
    }
}

/// The percentage shown is the whole percentage rounded down: `percent`
/// hundredths of the total are used, and not `percent + 1`.
pub proof fn mem_percent_rounds_down(used: u64, total: u64)
    requires
        used <= total,
        total > 0,
    ensures
        mem_percent_of(used, total) * total <= used * 100 < (mem_percent_of(used, total) + 1) * total,
{
    mem_percent_within_bounds(used, total);
    let v = (used * 100) / (total as int);
    assert(0 <= v <= 100) by (nonlinear_arith)
        requires
            used <= total,
            total > 0,
            v == (used * 100) / (total as int),
    ;
    assert(mem_percent_of(used, total) == v);
    assert(v * total <= used * 100 < (v + 1) * total) by (nonlinear_arith)
        requires
            total > 0,
            used >= 0,
            v == (used * 100) / (total as int),
    ;
}

pub fn memory_percent(used: u64, total: u64) -> (r: i32)
    requires
        mem_percent_defined(used, total),
    ensures
        r == mem_percent_of(used, total),
{
    if total > 0 {
        (used * 100 / total) as i32
    } else {
        0
    }
}

/// Pages in use (active, wired and compressed) times the page size, the
/// measure Activity Monitor uses.
pub open spec fn vm_used(active: u32, wired: u32, compressed: u32, page_size: u64) -> int {
    (active + wired + compressed) * page_size
}

/// Used memory is linear in the page size: one-byte pages count the pages
/// themselves, and the bytes for a page size of `p + q` are the bytes for
/// `p` plus the bytes for `q`; each kind of page adds its own share.
pub proof fn vm_used_scales_with_page_size(
    active: u32,
    wired: u32,
    compressed: u32,
    p: u64,
    q: u64,
)
    ensures
        vm_used(active, wired, compressed, 1) == active + wired + compressed,
        vm_used(active, wired, compressed, 0) == 0,
        p + q <= u64::MAX ==> vm_used(active, wired, compressed, (p + q) as u64) == vm_used(
            active,
            wired,
            compressed,
            p,
        ) + vm_used(active, wired, compressed, q),
        vm_used(active, wired, compressed, p) == vm_used(active, 0, 0, p) + vm_used(0, wired, 0, p)
            + vm_used(0, 0, compressed, p),
        vm_used(active, wired, compressed, p) == (active as int + wired as int + compressed as int)
            * (p as int),
{
    let n = active as int + wired as int + compressed as int;
    assert(n * ((p + q) as int) == n * (p as int) + n * (q as int)) by (nonlinear_arith);
    assert(n * (p as int) == (active as int) * (p as int) + (wired as int) * (p as int) + (
    compressed as int) * (p as int)) by (nonlinear_arith)
        requires
            n == active as int + wired as int + compressed as int,
    ;
}

pub fn vm_used_bytes(active: u32, wired: u32, compressed: u32, page_size: u64) -> (r: u64)
    requires
        vm_used(active, wired, compressed, page_size) <= u64::MAX,
    ensures
        r == vm_used(active, wired, compressed, page_size),
{
    (active as u64 + wired as u64 + compressed as u64) * page_size
}

/// The macOS memory reading from the kernel's VM statistics: nothing unless
/// the statistics call succeeded (`status == 0`), else `(used, total)`.
pub fn mac_memory_reading(
    status: i32,
    active: u32,
    wired: u32,
    compressed: u32,
    page_size: u64,
    total: u64,
) -> (r: Option<(u64, u64)>)
    requires
        status == 0 ==> vm_used(active, wired, compressed, page_size) <= u64::MAX,
    ensures
        r == (if status == 0 {
            Some((vm_used(active, wired, compressed, page_size) as u64, total))
        } else {
            None
        }),
{
    if status != 0 {
        return None;
    }
    Some((vm_used_bytes(active, wired, compressed, page_size), total))
}

// ---------------------------------------------------------------------------
// Network interfaces
// ---------------------------------------------------------------------------

/// Whether an interface's traffic counts: on macOS the `en*` interfaces
/// (Ethernet and Wi-Fi); on Linux `en*`, `eth*` and `wl*`; on Windows every
/// named interface whose lowercased name does not mention `loopback`.
pub open spec fn interface_counted(platform: Platform, name: Seq<char>, lowered: Seq<char>) -> bool {
    match platform {
        Platform::MacOs => starts_with(name, seq!['e', 'n']),
        Platform::Linux => starts_with(name, seq!['e', 'n']) || starts_with(name, seq!['e', 't', 'h'])
            || starts_with(name, seq!['w', 'l']),
        Platform::Windows => !contains_text(lowered, seq!['l', 'o', 'o', 'p', 'b', 'a', 'c', 'k'])
            && name.len() > 0,
    }
}

/// On macOS exactly the interfaces named `en...` count.
pub proof fn macos_counts_en_interfaces(name: Seq<char>, lowered: Seq<char>)
    ensures
        interface_counted(Platform::MacOs, name, lowered) <==> (name.len() >= 2 && name[0] == 'e'
            && name[1] == 'n'),
{
    if name.len() >= 2 && name[0] == 'e' && name[1] == 'n' {
        assert(name.take(2) =~= seq!['e', 'n']);
    }
}

/// On Linux exactly the interfaces named `en...` (including `ens33`,
/// `eno1`, `enp3s0`), `eth...` and `wl...` count.
pub proof fn linux_counts_wired_and_wireless_interfaces(name: Seq<char>, lowered: Seq<char>)
    ensures
        interface_counted(Platform::Linux, name, lowered) <==> ((name.len() >= 2 && name[0] == 'e'
            && name[1] == 'n') || (name.len() >= 3 && name[0] == 'e' && name[1] == 't' && name[2]
            == 'h') || (name.len() >= 2 && name[0] == 'w' && name[1] == 'l')),
{
    if name.len() >= 2 && name[0] == 'e' && name[1] == 'n' {
        assert(name.take(2) =~= seq!['e', 'n']);
    }
    if name.len() >= 3 && name[0] == 'e' && name[1] == 't' && name[2] == 'h' {
        assert(name.take(3) =~= seq!['e', 't', 'h']);
    }
    if name.len() >= 2 && name[0] == 'w' && name[1] == 'l' {
        assert(name.take(2) =~= seq!['w', 'l']);
    }
}

/// On Windows an interface counts exactly when it has a name and no run of
/// eight characters of its lowercased name spells `loopback`.
pub proof fn windows_counts_named_non_loopback_interfaces(name: Seq<char>, lowered: Seq<char>)
    ensures
        interface_counted(Platform::Windows, name, lowered) <==> (name.len() > 0 && !exists|i: int|
            0 <= i && i + 8 <= lowered.len() && #[trigger] lowered.subrange(i, i + 8) == seq![
                'l',
                'o',
                'o',
                'p',
                'b',
                'a',
                'c',
                'k',
            ]),
{
    let pat = seq!['l', 'o', 'o', 'p', 'b', 'a', 'c', 'k'];
    assert(pat.len() == 8);
    if contains_text(lowered, pat) {
        let i = choose|i: int| occurs_at(lowered, pat, i);
        assert(lowered.subrange(i, i + 8) == pat);
    }
    if exists|i: int| 0 <= i && i + 8 <= lowered.len() && #[trigger] lowered.subrange(i, i + 8) == pat {
        let i = choose|i: int|
            0 <= i && i + 8 <= lowered.len() && #[trigger] lowered.subrange(i, i + 8) == pat;
        assert(occurs_at(lowered, pat, i));
    }
}

/// Whether an interface with this name counts on `platform`.
pub open spec fn counts(platform: Platform, name: Seq<char>) -> bool {
    interface_counted(platform, name, lowercase_of(name))
}

/// Bytes received over the counted interfaces.
pub open spec fn received_total(platform: Platform, ifs: Seq<InterfaceSample>) -> nat
    decreases ifs.len(),
{
    if ifs.len() == 0 {
        0
    } else {
        received_total(platform, ifs.drop_last()) + if counts(platform, ifs.last().name@) {
            ifs.last().received as nat
        } else {
            0
        }
    }
}

/// Bytes transmitted over the counted interfaces.
pub open spec fn transmitted_total(platform: Platform, ifs: Seq<InterfaceSample>) -> nat
    decreases ifs.len(),
{
    if ifs.len() == 0 {
        0
    } else {
        transmitted_total(platform, ifs.drop_last()) + if counts(platform, ifs.last().name@) {
            ifs.last().transmitted as nat
        } else {
            0
        }
    }
}

/// Both totals fit in `u64`, so summing them never overflows.
pub open spec fn traffic_fits(platform: Platform, ifs: Seq<InterfaceSample>) -> bool {
    received_total(platform, ifs) <= u64::MAX && transmitted_total(platform, ifs) <= u64::MAX
}

/// The totals over two lists of interfaces are the sums of their totals,
/// and a single counted interface contributes exactly its own bytes.
pub proof fn traffic_totals_add_up(
    platform: Platform,
    a: Seq<InterfaceSample>,
    b: Seq<InterfaceSample>,
)
    ensures
        received_total(platform, a + b) == received_total(platform, a) + received_total(platform, b),
        transmitted_total(platform, a + b) == transmitted_total(platform, a) + transmitted_total(
            platform,
            b,
        ),
    decreases b.len(),
{
    if b.len() == 0 {
        assert(a + b =~= a);
    } else {
        traffic_totals_add_up(platform, a, b.drop_last());
        assert((a + b).drop_last() =~= a + b.drop_last());
        assert((a + b).last() == b.last());
    }
}

/// One interface alone: its bytes where it counts, nothing where it does not.
pub proof fn traffic_of_one_interface(platform: Platform, x: InterfaceSample)
    ensures
        received_total(platform, seq![x]) == (if counts(platform, x.name@) {
            x.received as nat
        } else {
            0
        }),
        transmitted_total(platform, seq![x]) == (if counts(platform, x.name@) {
            x.transmitted as nat
        } else {
            0
        }),
{
    let one = seq![x];
    assert(one.drop_last() =~= Seq::<InterfaceSample>::empty());
    assert(one.last() == x);
    assert(received_total(platform, Seq::<InterfaceSample>::empty()) == 0);
    assert(transmitted_total(platform, Seq::<InterfaceSample>::empty()) == 0);
}

proof fn lemma_totals_prefix(platform: Platform, ifs: Seq<InterfaceSample>, k: int)
    requires
        0 <= k <= ifs.len(),
    ensures
        received_total(platform, ifs.take(k)) <= received_total(platform, ifs),
        transmitted_total(platform, ifs.take(k)) <= transmitted_total(platform, ifs),
    decreases ifs.len() - k,
{
    if k < ifs.len() {
        lemma_totals_prefix(platform, ifs, k + 1);
        assert(ifs.take(k + 1).drop_last() =~= ifs.take(k));
    } else {
        assert(ifs.take(k) =~= ifs);
    }
}

/// Whether an interface counts on `platform`, given its name and the name
/// lowercased (only Windows looks at the latter).
pub fn interface_is_counted(platform: Platform, name: &str, lowered_name: &str) -> (r: bool)
    ensures
        r == interface_counted(platform, name@, lowered_name@),
{
    let n = chars_of(name);
    match platform {
        Platform::MacOs => {
            let en = chars_of("en");
            proof {
                reveal_strlit("en");
                assert(en@ =~= seq!['e', 'n']);
            }
            has_prefix(&n, &en)
        },
        Platform::Linux => {
            let en = chars_of("en");
            let eth = chars_of("eth");
            let wl = chars_of("wl");
            proof {
                reveal_strlit("en");
                reveal_strlit("eth");
                reveal_strlit("wl");
                assert(en@ =~= seq!['e', 'n']);
                assert(eth@ =~= seq!['e', 't', 'h']);
                assert(wl@ =~= seq!['w', 'l']);
            }
            has_prefix(&n, &en) || has_prefix(&n, &eth) || has_prefix(&n, &wl)
        },
        Platform::Windows => {
            let lowered = chars_of(lowered_name);
            let loopback = chars_of("loopback");
            proof {
                reveal_strlit("loopback");
                assert(loopback@ =~= seq!['l', 'o', 'o', 'p', 'b', 'a', 'c', 'k']);
            }
            !contains(&lowered, &loopback) && n.len() > 0
        },
    }
}

fn counts_interface(platform: Platform, name: &String) -> (r: bool)
    ensures
        r == counts(platform, name@),
{
    match platform {
        Platform::Windows => {
            let lowered = lowercase(name.as_str());
            interface_is_counted(platform, name.as_str(), lowered.as_str())
        },
        _ => interface_is_counted(platform, name.as_str(), name.as_str()),
    }
}

/// The received and transmitted totals over the counted interfaces, or
/// `None` where either does not fit in `u64`.
pub fn traffic_totals(platform: Platform, interfaces: &Vec<InterfaceSample>) -> (r: Option<(u64, u64)>)
    ensures
        r == (if traffic_fits(platform, interfaces@) {
            Some(
                (
                    received_total(platform, interfaces@) as u64,
                    transmitted_total(platform, interfaces@) as u64,
                ),
            )
        } else {
            None
        }),
{
    let mut rx: u64 = 0;
    let mut tx: u64 = 0;
    let mut i: usize = 0;
    while i < interfaces.len()
        invariant
            i <= interfaces.len(),
            rx == received_total(platform, interfaces@.take(i as int)),
            tx == transmitted_total(platform, interfaces@.take(i as int)),
        decreases interfaces.len() - i,
    {
        let iface = &interfaces[i];
        let counted = counts_interface(platform, &iface.name);
        let ghost p = interfaces@.take(i + 1);
        proof {
            assert(p.drop_last() =~= interfaces@.take(i as int));
            assert(p.last() == interfaces@[i as int]);
        }
        if counted {
            match (rx.checked_add(iface.received), tx.checked_add(iface.transmitted)) {
                (Some(a), Some(b)) => {
                    rx = a;
                    tx = b;
                },
                _ => {
                    proof {
                        lemma_totals_prefix(platform, interfaces@, i + 1);
                    }
                    return None;
                },
            }
        }
        i = i + 1;
    }
    assert(interfaces@.take(i as int) =~= interfaces@);
    Some((rx, tx))
}

// ---------------------------------------------------------------------------
// One refresh
// ---------------------------------------------------------------------------

/// Every sum and product that one refresh computes fits in `u64`.
pub open spec fn sample_fits(platform: Platform, sample: Sample) -> bool {
    &&& traffic_fits(platform, sample.interfaces@)
    &&& mem_percent_defined(memory_figures(sample.memory).0, memory_figures(sample.memory).1)
}

/// The figures one refresh reports: the CPU percentage as read, the memory
/// percentage of the reading (of `(0, 1)` where it failed), and the traffic
/// totals over the counted interfaces, except that a monitor without network
/// history reports zero rates.
pub open spec fn expected_metrics(had_history: bool, platform: Platform, sample: Sample) -> Metrics {
    let (used, total) = memory_figures(sample.memory);
    Metrics {
        cpu_percent: sample.cpu_percent,
        mem_percent: mem_percent_of(used, total),
        download_bps: if had_history {
            received_total(platform, sample.interfaces@) as u64
        } else {
            0
        },
        upload_bps: if had_history {
            transmitted_total(platform, sample.interfaces@) as u64
        } else {
            0
        },
    }
}

impl MonitorState {
    /// A monitor that has not read the network counters yet.
    pub fn new() -> (s: MonitorState)
        ensures
            !s.has_net_history,
    {
        MonitorState { has_net_history: false }
    }

    /// Computes the figures for one refresh; afterwards the monitor has
    /// network history.
    pub fn collect_metrics(&mut self, platform: Platform, sample: &Sample) -> (m: Metrics)
        requires
            sample_fits(platform, *sample),
        ensures
            m == expected_metrics(old(self).has_net_history, platform, *sample),
            final(self).has_net_history,
    {
        let (used, total) = match sample.memory {
            Some(p) => p,
            None => (0, 1),
        };
        let mem_percent = memory_percent(used, total);
        let (rx, tx) = match traffic_totals(platform, &sample.interfaces) {
            Some(t) => t,
            None => (0, 0),
        };
        let (download_bps, upload_bps) = if !self.has_net_history {
            self.has_net_history = true;
            (0, 0)
        } else {
            (rx, tx)
        };
        Metrics { cpu_percent: sample.cpu_percent, mem_percent, download_bps, upload_bps }
    }

    /// Like `collect_metrics`, but first checks that the refresh's sums fit:
    /// where one does not, returns `None` and leaves the monitor unchanged.
    pub fn try_collect_metrics(&mut self, platform: Platform, sample: &Sample) -> (r: Option<Metrics>)
        ensures
            r is None <==> !sample_fits(platform, *sample),
            r is None ==> final(self).has_net_history == old(self).has_net_history,
            r matches Some(m) ==> m == expected_metrics(old(self).has_net_history, platform, *sample)
                && final(self).has_net_history,
    {
        let (used, total) = match sample.memory {
            Some(p) => p,
            None => (0, 1),
        };
        if total > 0 && used > u64::MAX / 100 {
            return None;
        }
        match traffic_totals(platform, &sample.interfaces) {
            Some(_) => Some(self.collect_metrics(platform, sample)),
            None => None,
        }
    }
}

} // verus!
