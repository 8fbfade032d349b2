//! What the operating system's readings mean: memory figures, and who listens
//! where.

use vstd::prelude::*;
use std::collections::{BTreeMap, BTreeSet};
use crate::text;
use crate::text::{lines_of, same, split, unsigned};

verus! {

/// The systems whose memory figures are told apart.
#[derive(Clone, Copy, PartialEq, Eq, Structural, Debug)]
pub enum Platform {
    MacOs,
    Other,
}

impl Platform {
    /// The platform of an operating system's name.
    pub open spec fn named(os: Seq<char>) -> Platform {
        if os == "macos"@ {
            Platform::MacOs
        } else {
            Platform::Other
        }
    }

    pub fn of(os: &str) -> (p: Platform)
        ensures
            p == Platform::named(os@),
    {
        if same(os, "macos") {
            Platform::MacOs
        } else {
            Platform::Other
        }
    }
}

/// The process memory value used by admission and dashboard accounting: the
/// physical footprint where it could be read, and the resident size otherwise.
///
/// The physical footprint of macOS holds graphics allocations that the resident
/// size leaves out.
pub fn measured_memory(footprint: Option<u64>, resident_bytes: u64) -> (r: u64)
    ensures
        r == (match footprint {
            Some(n) => n,
            None => resident_bytes,
        }),
{
    match footprint {
        Some(n) => n,
        None => resident_bytes,
    }
}

/// The footprint field of a usage record of version 4: it follows the 16 bytes
/// of the UUID and seven 8-byte counters, least significant byte first.
pub open spec fn footprint_field(usage: Seq<u8>) -> u64 {
    vstd::bytes::spec_u64_from_le_bytes(usage.subrange(72, 80))
}

/// The physical footprint in the usage record that the kernel filled in, given
/// the code that the call returned. A failed call and a footprint of zero give
/// none.
pub fn macos_phys_footprint(code: i32, usage: &[u8; 296]) -> (r: Option<u64>)
    ensures
        r == if code == 0 && footprint_field(usage@) > 0 {
            Some(footprint_field(usage@))
        } else {
            None
        },
{
    if code != 0 {
        return None;
    }
    let bytes = vstd::slice::slice_subrange(usage.as_slice(), 72, 80);
    let footprint: u64 = vstd::bytes::u64_from_le_bytes(bytes);
    if footprint > 0 {
        Some(footprint)
    } else {
        None
    }
}

/// What process memory is measured by.
pub fn process_memory_basis(platform: Platform) -> (s: &'static str)
    ensures
        s@ == (match platform {
            Platform::MacOs => "macOS phys_footprint (含 Metal/IOAccelerator；讀取失敗時退回 RSS)"@,
            Platform::Other => "RSS"@,
        }),
{
    match platform {
        Platform::MacOs => "macOS phys_footprint (含 Metal/IOAccelerator；讀取失敗時退回 RSS)",
        Platform::Other => "RSS",
    }
}

/// What admission goes by.
pub open spec fn admitted_memory(platform: Platform, available: u64, free: u64) -> u64 {
    if platform == Platform::MacOs && available == 0 {
        free
    } else {
        available
    }
}

/// The memory that admission goes by, and where the figure comes from.
///
/// On macOS the available figure can sink to zero while pages are free; the free
/// pages then stand in. They count only what is unused now, and say nothing of
/// what could be reclaimed.
pub fn admission_available_memory(
    platform: Platform,
    sysinfo_available: u64,
    free_memory: u64,
) -> (r: (u64, &'static str))
    ensures
        r.0 == admitted_memory(platform, sysinfo_available, free_memory),
        platform == Platform::MacOs && sysinfo_available == 0 && free_memory > 0 ==> r.0
            == free_memory && r.1@ == "macos_free_pages_fallback"@,
        !(platform == Platform::MacOs && sysinfo_available == 0 && free_memory > 0) ==> r.0
            == sysinfo_available && r.1@ == "sysinfo_available"@,
{
    if platform == Platform::MacOs && sysinfo_available == 0 && free_memory > 0 {
        (free_memory, "macos_free_pages_fallback")
    } else {
        (sysinfo_available, "sysinfo_available")
    }
}

/// The port that a name line ends in, after its last colon.
pub open spec fn port_named(line: Seq<char>) -> Option<nat> {
    let p = text::pieces(line.drop_first(), ':');
    if line.len() > 0 && line[0] == 'n' && p.len() > 1 {
        text::unsigned_value(p.last(), 0xffff)
    } else {
        None
    }
}

/// The process that the first `k` lines leave in force: the one of the last
/// process line, if that names one.
pub open spec fn process_in_force(lines: Seq<Seq<char>>, k: int) -> Option<nat>
    decreases k,
{
    if k <= 0 {
        None
    } else if lines[k - 1].len() > 0 && lines[k - 1][0] == 'p' {
        text::unsigned_value(lines[k - 1].drop_first(), 0xffff_ffff)
    } else {
        process_in_force(lines, k - 1)
    }
}

/// One of the first `k` lines says that the process listens on the port.
pub open spec fn is_listening(lines: Seq<Seq<char>>, k: int, port: u16, pid: u32) -> bool {
    exists|j: int|
        0 <= j < k && #[trigger] port_named(lines[j]) == Some(port as nat) && process_in_force(
            lines,
            j,
        ) == Some(pid as nat)
}

/// The map has the process under the port.
pub open spec fn is_listed(m: Map<u16, BTreeSet<u32>>, port: u16, pid: u32) -> bool {
    m.contains_key(port) && m[port]@.contains(pid)
}

/// The map holds just the ports and processes that the first `k` lines tell of.
pub open spec fn tells(
    m: Map<u16, BTreeSet<u32>>,
    lines: Seq<Seq<char>>,
    k: int,
) -> bool {
    &&& forall|port: u16, pid: u32| #[trigger]
        is_listed(m, port, pid) <==> is_listening(lines, k, port, pid)
    &&& forall|port: u16| #[trigger]
        m.contains_key(port) ==> exists|pid: u32| #[trigger] is_listed(m, port, pid)
}

/// Calls `String::from_utf8`: the text that the bytes encode, and nothing where
/// they are not UTF-8.
#[verifier::external_body]
fn read_utf8(bytes: Vec<u8>) -> (r: Option<String>)
    ensures
        r is Some <==> vstd::utf8::valid_utf8(bytes@),
        r matches Some(s) ==> s@ == vstd::utf8::decode_utf8(bytes@),
{
    String::from_utf8(bytes).ok()
}

/// The processes that listen on each TCP port, read from the field output of
/// `lsof` (`p` lines and `n` lines). None means that the probe failed, which
/// callers must treat as unverified rather than as an open port.
pub fn listening_pids(success: bool, stdout: Vec<u8>) -> (r: Option<
    BTreeMap<u16, BTreeSet<u32>>,
>)
    ensures
        r is Some <==> success && vstd::utf8::valid_utf8(stdout@),
        r matches Some(m) ==> tells(
            m@,
            text::lines(vstd::utf8::decode_utf8(stdout@)),
            text::lines(vstd::utf8::decode_utf8(stdout@)).len() as int,
        ),
{
    if !success {
        return None;
    }
    let output: String = match read_utf8(stdout) {
        Some(s) => s,
        None => {
            return None;
        },
    };
    let lines = lines_of(output.as_str());
    let ghost all = text::lines(output@);
    let mut result: BTreeMap<u16, BTreeSet<u32>> = BTreeMap::new();
    let mut pid: Option<u32> = None;
    let mut k: usize = 0;
    while k < lines.len()
        invariant
            k <= lines@.len(),
            text::runs(lines@) == all,
            tells(result@, all, k as int),
            match pid {
                Some(p) => process_in_force(all, k as int) == Some(p as nat),
                None => process_in_force(all, k as int) is None,
            },
        decreases lines@.len() - k,
    {
        let line = &lines[k];
        assert(all[k as int] == line@);
        if line.len() > 0 && line[0] == 'p' {
            assert(line@.skip(1) =~= line@.drop_first());
            pid = match unsigned(line, 1, 0xffff_ffff) {
                Some(n) => Some(n as u32),
                None => None,
            };
            proof {
                assert forall|port: u16, q: u32| is_listening(all, k + 1, port, q) implies is_listening(
                    all,
                    k as int,
                    port,
                    q,
                ) by {
                    let j = choose|j: int|
                        0 <= j < k + 1 && #[trigger] port_named(all[j]) == Some(port as nat)
                            && process_in_force(all, j) == Some(q as nat);
                    assert(j < k);
                }
                lemma_tells_on(result@, all, k as int);
            }
        } else {
            let port: Option<u16> = named_port(line);
            let ghost before = result@;
            match (port, pid) {
                (Some(port), Some(owner)) => {
                    let mut owners: BTreeSet<u32> = match result.remove(&port) {
                        Some(s) => s,
                        None => BTreeSet::new(),
                    };
                    owners.insert(owner);
                    result.insert(port, owners);
                    proof {
                        assert(result@.dom() =~= before.dom().insert(port));
                        lemma_tells_more(before, result@, all, k as int, port, owner);
                    }
                },
                _ => {
                    proof {
                        assert forall|port: u16, q: u32|
                            is_listening(all, k + 1, port, q) implies is_listening(
                            all,
                            k as int,
                            port,
                            q,
                        ) by {
                            let j = choose|j: int|
                                0 <= j < k + 1 && #[trigger] port_named(all[j]) == Some(port as nat)
                                    && process_in_force(all, j) == Some(q as nat);
                            assert(j < k);
                        }
                        lemma_tells_on(result@, all, k as int);
                    }
                },
            }
        }
        k += 1;
    }
    Some(result)
}

fn named_port(line: &Vec<char>) -> (r: Option<u16>)
    ensures
        match r {
            Some(p) => port_named(line@) == Some(p as nat),
            None => port_named(line@) is None,
        },
{
    if line.len() == 0 || line[0] != 'n' {
        return None;
    }
    assert(line@.skip(1) =~= line@.drop_first());
    let parts = split(line, 1, ':');
    assert(text::runs(parts@).len() == parts@.len());
    if parts.len() < 2 {
        return None;
    }
    let last: usize = parts.len() - 1;
    assert(text::runs(parts@)[last as int] == parts@[last as int]@);
    assert(parts@[last as int]@.skip(0) =~= parts@[last as int]@);
    match unsigned(&parts[last], 0, 0xffff) {
        Some(n) => Some(n as u16),
        None => None,
    }
}

/// A line that tells of no listener leaves the map as it should be.
proof fn lemma_tells_on(m: Map<u16, BTreeSet<u32>>, lines: Seq<Seq<char>>, k: int)
    requires
        tells(m, lines, k),
        forall|port: u16, q: u32|
            is_listening(lines, k + 1, port, q) ==> is_listening(lines, k, port, q),
    ensures
        tells(m, lines, k + 1),
{
    assert forall|port: u16, q: u32| is_listening(lines, k, port, q) implies is_listening(
        lines,
        k + 1,
        port,
        q,
    ) by {
        let j = choose|j: int|
            0 <= j < k && #[trigger] port_named(lines[j]) == Some(port as nat) && process_in_force(
                lines,
                j,
            ) == Some(q as nat);
        assert(0 <= j < k + 1);
        assert(port_named(lines[j]) == Some(port as nat));
    }
}

/// A line that tells of a listener adds it, and it alone.
proof fn lemma_tells_more(
    before: Map<u16, BTreeSet<u32>>,
    after: Map<u16, BTreeSet<u32>>,
    lines: Seq<Seq<char>>,
    k: int,
    port: u16,
    owner: u32,
)
    requires
        0 <= k < lines.len(),
        tells(before, lines, k),
        port_named(lines[k]) == Some(port as nat),
        process_in_force(lines, k) == Some(owner as nat),
        after.dom() == before.dom().insert(port),
        forall|p: u16| p != port && before.contains_key(p) ==> #[trigger] after[p] == before[p],
        after[port]@ == (if before.contains_key(port) {
            before[port]@
        } else {
            Set::empty()
        }).insert(owner),
    ensures
        tells(after, lines, k + 1),
{
    assert forall|p: u16, q: u32| #[trigger]
        is_listed(after, p, q) <==> is_listening(lines, k + 1, p, q) by {
        let held = is_listed(before, p, q);
        assert(is_listed(after, p, q) <==> held || (p == port && q == owner));
        if is_listening(lines, k + 1, p, q) {
            let j = choose|j: int|
                0 <= j < k + 1 && #[trigger] port_named(lines[j]) == Some(p as nat)
                    && process_in_force(lines, j) == Some(q as nat);
            if j < k {
                assert(is_listening(lines, k, p, q));
            }
        }
        if held {
            let j = choose|j: int|
                0 <= j < k && #[trigger] port_named(lines[j]) == Some(p as nat)
                    && process_in_force(lines, j) == Some(q as nat);
            assert(0 <= j < k + 1 && port_named(lines[j]) == Some(p as nat));
        }
        if p == port && q == owner {
            assert(port_named(lines[k]) == Some(p as nat));
        }
    }
    assert forall|p: u16| #[trigger] after.contains_key(p) implies exists|q: u32| #[trigger]
        is_listed(after, p, q) by {
        if p == port {
            assert(is_listed(after, p, owner));
        } else {
            let q = choose|q: u32| #[trigger] is_listed(before, p, q);
            assert(is_listed(after, p, q));
        }
    }
}

/// A name line that follows a process line, with no other process line between,
/// tells that this process listens on the port after the last colon.
pub proof fn law_listener_is_read(
    lines: Seq<Seq<char>>,
    a: int,
    b: int,
    pid: u32,
    port: u16,
    address: Seq<char>,
)
    requires
        0 <= a < b < lines.len(),
        lines[a] == seq!['p'] + text::decimal(pid as nat),
        lines[b] == seq!['n'] + address + seq![':'] + text::decimal(port as nat),
        forall|j: int| a < j < b ==> (#[trigger] lines[j]).len() == 0 || lines[j][0] != 'p',
    ensures
        is_listening(lines, lines.len() as int, port, pid),
{
    let line = lines[b];
    let digits = text::decimal(port as nat);
    text::law_numerals_are_read_back(port as nat, 0xffff);
    text::law_numerals_are_read_back(pid as nat, 0xffff_ffff);
    assert(!digits.contains(':')) by {
        if digits.contains(':') {
            let i = choose|i: int| 0 <= i < digits.len() && digits[i] == ':';
            assert('0' <= digits[i] <= '9');
        }
    }
    assert(line.drop_first() =~= address + seq![':'] + digits);
    text::law_pieces_are_cut_at_the_separator(address, digits, ':');
    assert(line[0] == 'n');
    assert(port_named(line) == Some(port as nat));
    lemma_in_force(lines, a, b);
    assert(lines[a].drop_first() =~= text::decimal(pid as nat));
    assert(lines[a][0] == 'p');
    assert(port_named(lines[b]) == Some(port as nat) && process_in_force(lines, b) == Some(
        pid as nat,
    ));
}

proof fn lemma_in_force(lines: Seq<Seq<char>>, a: int, b: int)
    requires
        0 <= a < b <= lines.len(),
        lines[a].len() > 0,
        lines[a][0] == 'p',
        forall|j: int| a < j < b ==> (#[trigger] lines[j]).len() == 0 || lines[j][0] != 'p',
    ensures
        process_in_force(lines, b) == text::unsigned_value(lines[a].drop_first(), 0xffff_ffff),
    decreases b,
{
    if b - 1 > a {
        assert(lines[b - 1].len() == 0 || lines[b - 1][0] != 'p');
        lemma_in_force(lines, a, b - 1);
    }
}

/// Nothing is told of listeners without a name line for the port after a process
/// line for the process.
pub proof fn law_listener_was_named(lines: Seq<Seq<char>>, k: int, port: u16, pid: u32) -> (r: (
    int,
    int,
    Seq<char>,
    Seq<char>,
))
    requires
        0 <= k <= lines.len(),
        is_listening(lines, k, port, pid),
    ensures
        0 <= r.0 < r.1 < k,
        lines[r.0].len() > 0 && lines[r.0][0] == 'p',
        text::unsigned_value(lines[r.0].drop_first(), 0xffff_ffff) == Some(pid as nat),
        forall|j: int| r.0 < j < r.1 ==> (#[trigger] lines[j]).len() == 0 || lines[j][0] != 'p',
        lines[r.1] == seq!['n'] + r.2 + seq![':'] + r.3,
        !r.3.contains(':'),
        text::unsigned_value(r.3, 0xffff) == Some(port as nat),
{
    let b = choose|j: int|
        0 <= j < k && #[trigger] port_named(lines[j]) == Some(port as nat) && process_in_force(
            lines,
            j,
        ) == Some(pid as nat);
    let a = lemma_force_line(lines, b);
    let rest = lines[b].drop_first();
    let address = text::law_last_piece_follows_a_separator(rest, ':');
    let digits = text::pieces(rest, ':').last();
    assert(lines[b] =~= seq!['n'] + rest);
    assert(lines[b] =~= seq!['n'] + address + seq![':'] + digits);
    (a, b, address, digits)
}

proof fn lemma_force_line(lines: Seq<Seq<char>>, b: int) -> (a: int)
    requires
        0 <= b <= lines.len(),
        process_in_force(lines, b) is Some,
    ensures
        0 <= a < b,
        lines[a].len() > 0 && lines[a][0] == 'p',
        text::unsigned_value(lines[a].drop_first(), 0xffff_ffff) == process_in_force(lines, b),
        forall|j: int| a < j < b ==> (#[trigger] lines[j]).len() == 0 || lines[j][0] != 'p',
    decreases b,
{
    if lines[b - 1].len() > 0 && lines[b - 1][0] == 'p' {
        b - 1
    } else {
        lemma_force_line(lines, b - 1)
    }
}

/// The footprint is the number that stands in the eight bytes from the 72nd on,
/// least significant byte first; no other byte matters.
pub proof fn law_footprint_stands_at_its_place(before: Seq<u8>, n: u64, after: Seq<u8>)
    requires
        before.len() == 72,
    ensures
        footprint_field(before + vstd::bytes::spec_u64_to_le_bytes(n) + after) == n,
{
    vstd::bytes::lemma_auto_spec_u64_to_from_le_bytes();
    let b = vstd::bytes::spec_u64_to_le_bytes(n);
    assert((before + b + after).subrange(72, 80) =~= b);
}

} // verus!
