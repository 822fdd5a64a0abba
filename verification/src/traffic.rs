//! Interface filtering and compact transfer-rate texts for the tray.
use vstd::prelude::*;
use vstd::string::*;
use crate::sorted::{sorted_insert, strictly_sorted, views};
use crate::text::{
    chars_of, contains, contains_chars, decimal, decimal_string, digit_char, lower, lower_chars,
    owned, push_char, starts_with, matches_at, trim_chars, trimmed,
};

verus! {

/// Interfaces whose traffic is not the machine's own: loopback, tunnels, VPNs,
/// containers, bridges and similar virtual devices.
pub open spec fn excluded_interface(n: Seq<char>) -> bool {
    ||| n.len() == 0
    ||| n == "lo"@ || n == "lo0"@ || n == "loopback"@
    ||| starts_with(n, "utun"@) || starts_with(n, "tun"@) || starts_with(n, "tap"@)
    ||| starts_with(n, "tailscale"@) || starts_with(n, "wg"@) || starts_with(n, "wireguard"@)
    ||| starts_with(n, "docker"@) || starts_with(n, "veth"@) || starts_with(n, "virbr"@)
    ||| starts_with(n, "bridge"@) || starts_with(n, "br-"@) || starts_with(n, "awdl"@)
    ||| starts_with(n, "llw"@) || starts_with(n, "anpi"@) || starts_with(n, "gif"@)
    ||| starts_with(n, "stf"@) || starts_with(n, "vmnet"@) || starts_with(n, "vboxnet"@)
    ||| starts_with(n, "zt"@) || starts_with(n, "zerotier"@) || starts_with(n, "ham"@)
    ||| starts_with(n, "nordlynx"@)
    ||| contains(n, "loopback"@) || contains(n, "virtual"@) || contains(n, " vpn"@)
}

fn prefixed(n: &Vec<char>, p: &str) -> (r: bool)
    ensures
        r == starts_with(n@, p@),
{
    matches_at(n, &chars_of(p), 0)
}

fn has(n: &Vec<char>, p: &str) -> (r: bool)
    ensures
        r == contains(n@, p@),
{
    contains_chars(n, &chars_of(p))
}

fn same(n: &Vec<char>, p: &str) -> (r: bool)
    ensures
        r == (n@ == p@),
{
    crate::text::eq_chars(n, &chars_of(p))
}

/// Counts an interface toward the global rate, judging its trimmed, ASCII
/// lower-cased name.
pub fn should_include_interface(name: &str) -> (r: bool)
    ensures
        r == !excluded_interface(lower(trimmed(name@))),
{
    let n = lower_chars(&trim_chars(&chars_of(name)));
    !(n.len() == 0 || same(&n, "lo") || same(&n, "lo0") || same(&n, "loopback") || prefixed(
        &n,
        "utun",
    ) || prefixed(&n, "tun") || prefixed(&n, "tap") || prefixed(&n, "tailscale") || prefixed(
        &n,
        "wg",
    ) || prefixed(&n, "wireguard") || prefixed(&n, "docker") || prefixed(&n, "veth")
        || prefixed(&n, "virbr") || prefixed(&n, "bridge") || prefixed(&n, "br-") || prefixed(
        &n,
        "awdl",
    ) || prefixed(&n, "llw") || prefixed(&n, "anpi") || prefixed(&n, "gif") || prefixed(
        &n,
        "stf",
    ) || prefixed(&n, "vmnet") || prefixed(&n, "vboxnet") || prefixed(&n, "zt") || prefixed(
        &n,
        "zerotier",
    ) || prefixed(&n, "ham") || prefixed(&n, "nordlynx") || has(&n, "loopback") || has(
        &n,
        "virtual",
    ) || has(&n, " vpn"))
}

/// `num / den` rounded to the nearest integer, ties to even (how `{:.N}`
/// formatting rounds an exactly representable binary value).
pub open spec fn round_half_even(num: nat, den: nat) -> nat
    recommends
        den > 0,
{
    let q = num / den;
    let r = num % den;
    if 2 * r < den {
        q
    } else if 2 * r > den {
        q + 1
    } else if q % 2 == 0 {
        q
    } else {
        q + 1
    }
}

pub fn round_half_even_u128(num: u128, den: u128) -> (r: u128)
    requires
        den > 0,
        num < u128::MAX / 2,
        den < u128::MAX / 2,
    ensures
        r == round_half_even(num as nat, den as nat),
{
    let q = num / den;
    let rem = num % den;
    if 2 * rem < den {
        q
    } else if 2 * rem > den {
        q + 1
    } else if q % 2 == 0 {
        q
    } else {
        q + 1
    }
}

/// `t` tenths written with one decimal: `"<t / 10>.<t % 10>"`.
pub open spec fn tenths_text(t: nat) -> Seq<char> {
    decimal(t / 10).push('.').push(digit_char(t % 10))
}

fn tenths_string(t: u64) -> (r: String)
    ensures
        r@ == tenths_text(t as nat),
{
    let mut s = decimal_string(t / 10);
    push_char(&mut s, '.');
    let d: u8 = (t % 10) as u8;
    let c: char = (48u8 + d) as char;
    push_char(&mut s, c);
    s
}

/// `1024^k` for the unit steps used here (`k <= 7`).
pub open spec fn pow1024(k: nat) -> nat {
    if k == 0 {
        1
    } else if k == 1 {
        1024
    } else if k == 2 {
        1048576
    } else if k == 3 {
        1073741824
    } else if k == 4 {
        1099511627776
    } else if k == 5 {
        1125899906842624
    } else if k == 6 {
        1152921504606846976
    } else {
        1180591620717411303424
    }
}

/// Tray text of a rate: binary units B/K/M/G, one decimal below ten of a unit
/// above bytes, whole numbers otherwise, capped at 999.
pub open spec fn tray_rate_text(b: u64) -> Seq<char> {
    let (d, unit) = if b >= 1073741824 {
        (1073741824nat, "G/s"@)
    } else if b >= 1048576 {
        (1048576nat, "M/s"@)
    } else if b >= 1024 {
        (1024nat, "K/s"@)
    } else {
        (1nat, "B/s"@)
    };
    if d > 1 && b < 10 * d {
        tenths_text(round_half_even(10 * b as nat, d)) + unit
    } else {
        let n = if b >= 999 * d {
            999
        } else {
            round_half_even(b as nat, d)
        };
        decimal(n) + unit
    }
}

/// Compact per-second rate shown beside the tray icon.
pub fn format_tray_rate(bytes_per_second: u64) -> (r: String)
    ensures
        r@ == tray_rate_text(bytes_per_second),
{
    let b = bytes_per_second;
    let (d, unit): (u64, &str) = if b >= 1073741824 {
        (1073741824, "G/s")
    } else if b >= 1048576 {
        (1048576, "M/s")
    } else if b >= 1024 {
        (1024, "K/s")
    } else {
        (1, "B/s")
    };
    let mut s = if d > 1 && b < 10 * d {
        let t = round_half_even_u128(10 * (b as u128), d as u128);
        assert(t <= 100) by (nonlinear_arith)
            requires
                t == round_half_even((10 * b) as nat, d as nat),
                b < 10 * d,
                d > 1,
        {
            assert((10 * b) as nat / (d as nat) <= 99);
        }
        tenths_string(t as u64)
    } else {
        let n: u64 = if b >= 999 * d {
            999
        } else {
            let v = round_half_even_u128(b as u128, d as u128);
            assert(v <= 1024) by (nonlinear_arith)
                requires
                    v == round_half_even(b as nat, d as nat),
                    b < 999 * d || d == 1,
                    b < 1024 || d > 1,
                    d >= 1,
            {
                assert(b as nat / (d as nat) <= 1023);
            }
            v as u64
        };
        decimal_string(n)
    };
    s.append(unit);
    s
}

/// `2^s` for `s <= 11`.
pub open spec fn low_pow2(s: nat) -> nat {
    if s == 0 {
        1
    } else if s == 1 {
        2
    } else if s == 2 {
        4
    } else if s == 3 {
        8
    } else if s == 4 {
        16
    } else if s == 5 {
        32
    } else if s == 6 {
        64
    } else if s == 7 {
        128
    } else if s == 8 {
        256
    } else if s == 9 {
        512
    } else if s == 10 {
        1024
    } else {
        2048
    }
}

/// Largest integer below which every `u64` is exact in an `f64` (`2^53`).
pub const F64_EXACT: u128 = 9007199254740992;

/// Number of low bits that do not fit a 53-bit significand: the least `s` with
/// `b < 2^(53 + s)`.
pub open spec fn excess_bits(b: nat, s: nat) -> nat
    decreases 11 - s,
{
    if s >= 11 || b < F64_EXACT * low_pow2(s) {
        s
    } else {
        excess_bits(b, s + 1)
    }
}

/// The value of `b as f64`: rounded to 53 significant bits, ties to even.
pub open spec fn as_f64(b: u64) -> nat {
    let s = excess_bits(b as nat, 0);
    round_half_even(b as nat, low_pow2(s)) * low_pow2(s)
}

/// 9.95 as an `f64` is exactly `SCALED_995 / 2^48`.
pub const SCALED_995: u128 = 2800676018271027;

/// Unit index after repeated division by 1024 (at most exabytes): the largest
/// `k <= 6` with `1024^k <= f`.
pub open spec fn unit_steps(f: nat, k: nat) -> nat
    decreases 6 - k,
{
    if k >= 6 || f < pow1024(k + 1) {
        k
    } else {
        unit_steps(f, k + 1)
    }
}

/// Unit index of a rate, carrying a value that would round to 1024 into the next unit.
pub open spec fn rate_unit(b: u64) -> nat {
    let f = as_f64(b);
    let k = unit_steps(f, 0);
    if k < 6 && 2 * f >= 2047 * pow1024(k) {
        k + 1
    } else {
        k
    }
}

/// The numeric column of a rate: one decimal below 9.95 of a unit above bytes,
/// otherwise a whole number.
pub open spec fn rate_number(b: u64) -> Seq<char> {
    let f = as_f64(b);
    let k = rate_unit(b);
    if k > 0 && f * 0x1_0000_0000_0000 < SCALED_995 * pow1024(k) {
        tenths_text(round_half_even(10 * f, pow1024(k)))
    } else {
        decimal(round_half_even(f, pow1024(k)))
    }
}

pub open spec fn unit_letter(k: nat) -> Seq<char> {
    if k == 0 {
        "B"@
    } else if k == 1 {
        "K"@
    } else if k == 2 {
        "M"@
    } else if k == 3 {
        "G"@
    } else if k == 4 {
        "T"@
    } else if k == 5 {
        "P"@
    } else {
        "E"@
    }
}

pub open spec fn unit_name(k: nat) -> Seq<char> {
    if k == 0 {
        "B/s"@
    } else if k == 1 {
        "KiB/s"@
    } else if k == 2 {
        "MiB/s"@
    } else if k == 3 {
        "GiB/s"@
    } else if k == 4 {
        "TiB/s"@
    } else if k == 5 {
        "PiB/s"@
    } else {
        "EiB/s"@
    }
}

/// A rate split into its number and unit columns.
#[derive(Debug, PartialEq)]
pub struct Rate {
    pub number: String,
    pub unit: &'static str,
    pub full_unit: &'static str,
}

fn pow1024_u128(k: u32) -> (r: u128)
    requires
        k <= 7,
    ensures
        r == pow1024(k as nat),
        r >= 1,
{
    if k == 0 {
        1
    } else if k == 1 {
        1024
    } else if k == 2 {
        1048576
    } else if k == 3 {
        1073741824
    } else if k == 4 {
        1099511627776
    } else if k == 5 {
        1125899906842624
    } else if k == 6 {
        1152921504606846976
    } else {
        1180591620717411303424
    }
}

fn low_pow2_u128(s: u32) -> (r: u128)
    requires
        s <= 11,
    ensures
        r == low_pow2(s as nat),
        1 <= r <= 2048,
{
    if s == 0 {
        1
    } else if s == 1 {
        2
    } else if s == 2 {
        4
    } else if s == 3 {
        8
    } else if s == 4 {
        16
    } else if s == 5 {
        32
    } else if s == 6 {
        64
    } else if s == 7 {
        128
    } else if s == 8 {
        256
    } else if s == 9 {
        512
    } else if s == 10 {
        1024
    } else {
        2048
    }
}

/// `bytes as f64`, as an exact integer.
fn f64_value(b: u64) -> (r: u128)
    ensures
        r == as_f64(b),
        r <= 0x1_0000_0000_0000_1000,
{
    let mut s: u32 = 0;
    while s < 11 && (b as u128) >= F64_EXACT * low_pow2_u128(s)
        invariant
            s <= 11,
            excess_bits(b as nat, 0) == excess_bits(b as nat, s as nat),
        decreases 11 - s,
    {
        s = s + 1;
    }
    let p = low_pow2_u128(s);
    let q = round_half_even_u128(b as u128, p);
    let x = (b as u128) / p;
    proof {
        vstd::arithmetic::div_mod::lemma_fundamental_div_mod(b as int, p as int);
        assert(q <= x + 1);
        assert(q * p <= (b as int) + (p as int)) by (nonlinear_arith)
            requires
                q <= x + 1,
                p * x <= b,
                p >= 1,
        ;
    }
    q * p
}

fn unit_steps_exec(f: u128) -> (k: u32)
    requires
        f <= 0x1_0000_0000_0000_1000,
    ensures
        k as nat == unit_steps(f as nat, 0),
        k <= 6,
{
    let mut k: u32 = 0;
    while k < 6 && f >= pow1024_u128(k + 1)
        invariant
            k <= 6,
            unit_steps(f as nat, 0) == unit_steps(f as nat, k as nat),
        decreases 6 - k,
    {
        k = k + 1;
    }
    k
}

fn letter(k: u32) -> (r: &'static str)
    requires
        k <= 6,
    ensures
        r@ == unit_letter(k as nat),
{
    if k == 0 {
        "B"
    } else if k == 1 {
        "K"
    } else if k == 2 {
        "M"
    } else if k == 3 {
        "G"
    } else if k == 4 {
        "T"
    } else if k == 5 {
        "P"
    } else {
        "E"
    }
}

fn full_name(k: u32) -> (r: &'static str)
    requires
        k <= 6,
    ensures
        r@ == unit_name(k as nat),
{
    if k == 0 {
        "B/s"
    } else if k == 1 {
        "KiB/s"
    } else if k == 2 {
        "MiB/s"
    } else if k == 3 {
        "GiB/s"
    } else if k == 4 {
        "TiB/s"
    } else if k == 5 {
        "PiB/s"
    } else {
        "EiB/s"
    }
}

/// Splits a rate into number and binary unit for the two-row tray title.
pub fn format_rate(bytes: u64) -> (r: Rate)
    ensures
        r.number@ == rate_number(bytes),
        r.unit@ == unit_letter(rate_unit(bytes)),
        r.full_unit@ == unit_name(rate_unit(bytes)),
{
    let f = f64_value(bytes);
    let mut k = unit_steps_exec(f);
    let pk = pow1024_u128(k);
    if k < 6 && 2 * f >= 2047 * pk {
        k = k + 1;
    }
    let d = pow1024_u128(k);
    let number = if k > 0 && f * 0x1_0000_0000_0000 < SCALED_995 * d {
        let t = round_half_even_u128(10 * f, d);
        proof {
            lemma_tenths_small(f as nat, d as nat, t as nat);
        }
        tenths_string(t as u64)
    } else {
        let n = round_half_even_u128(f, d);
        proof {
            lemma_whole_bound(f as nat, d as nat, n as nat);
        }
        decimal_string(n as u64)
    };
    Rate { number, unit: letter(k), full_unit: full_name(k) }
}

proof fn lemma_tenths_small(f: nat, d: nat, t: nat)
    requires
        d >= 1,
        t == round_half_even(10 * f, d),
        f * 0x1_0000_0000_0000 < SCALED_995 * d,
    ensures
        t <= 100,
{
    assert(10 * f < 100 * d) by (nonlinear_arith)
        requires
            f * 0x1_0000_0000_0000 < SCALED_995 * d,
            d >= 1,
    ;
    assert((10 * f) / d < 100) by (nonlinear_arith)
        requires
            10 * f < 100 * d,
            d >= 1,
    ;
}

proof fn lemma_whole_bound(f: nat, d: nat, n: nat)
    requires
        d >= 1,
        n == round_half_even(f, d),
        f <= 0x1_0000_0000_0000_1000,
    ensures
        n <= 0x1_0000_0000_0000_1001,
{
    assert(f / d <= f) by (nonlinear_arith)
        requires
            d >= 1,
    ;
}

/// Key that changes whenever the displayed title changes.
pub open spec fn spec_display_key(upload: u64, download: u64) -> Seq<char> {
    rate_number(upload) + unit_letter(rate_unit(upload)) + ":"@ + rate_number(download)
        + unit_letter(rate_unit(download))
}

pub fn display_key(upload: u64, download: u64) -> (r: String)
    ensures
        r@ == spec_display_key(upload, download),
{
    let up = format_rate(upload);
    let down = format_rate(download);
    let mut s = up.number;
    s.append(up.unit);
    s.append(":");
    s.append(down.number.as_str());
    s.append(down.unit);
    s
}

/// Tooltip text with explicit binary units.
pub open spec fn spec_tooltip(upload: u64, download: u64) -> Seq<char> {
    "Serylane\n↑ "@ + rate_number(upload) + " "@ + unit_name(rate_unit(upload)) + "\n↓ "@
        + rate_number(download) + " "@ + unit_name(rate_unit(download))
}

pub fn tooltip(upload: u64, download: u64) -> (r: String)
    ensures
        r@ == spec_tooltip(upload, download),
{
    let up = format_rate(upload);
    let down = format_rate(download);
    let mut s = owned("Serylane\n↑ ");
    s.append(up.number.as_str());
    s.append(" ");
    s.append(up.full_unit);
    s.append("\n↓ ");
    s.append(down.number.as_str());
    s.append(" ");
    s.append(down.full_unit);
    s
}


/// One interface's counters since the previous refresh, and since boot.
#[derive(Debug, Clone)]
pub struct InterfaceSample {
    pub name: String,
    pub transmitted: u64,
    pub received: u64,
    pub total_transmitted: u64,
    pub total_received: u64,
}

pub open spec fn counted(s: InterfaceSample) -> bool {
    !excluded_interface(lower(trimmed(s.name@)))
}

pub open spec fn sat_add(a: int, b: int) -> int {
    if a + b > u64::MAX {
        u64::MAX as int
    } else {
        a + b
    }
}

/// Saturating totals of what counted interfaces sent or received.
pub open spec fn sent_total(v: Seq<InterfaceSample>, upload: bool) -> int
    decreases v.len(),
{
    if v.len() == 0 {
        0
    } else {
        let rest = sent_total(v.drop_last(), upload);
        if counted(v.last()) {
            sat_add(rest, if upload { v.last().transmitted as int } else { v.last().received as int })
        } else {
            rest
        }
    }
}

/// The interfaces named in the snapshot: counted ones that ever carried traffic.
pub open spec fn active_interface(s: InterfaceSample) -> bool {
    counted(s) && (s.total_transmitted > 0 || s.total_received > 0)
}

/// Global upload and download since the last refresh, over the counted
/// interfaces, and the names of the active ones in ascending order. Interface
/// names are distinct, as in the system's table.
pub fn aggregate_network_deltas(samples: &Vec<InterfaceSample>) -> (r: (u64, u64, Vec<String>))
    requires
        forall|i: int, j: int| 0 <= i < j < samples@.len() ==> #[trigger] samples@[i].name@ != #[trigger] samples@[j].name@,
    ensures
        r.0 == sent_total(samples@, true),
        r.1 == sent_total(samples@, false),
        strictly_sorted(views(r.2@)),
        forall|k: Seq<char>| views(r.2@).contains(k) <==> exists|i: int| 0 <= i < samples@.len()
            && active_interface(#[trigger] samples@[i]) && samples@[i].name@ == k,
{
    let mut uploaded: u64 = 0;
    let mut downloaded: u64 = 0;
    let mut interfaces: Vec<String> = Vec::new();
    let mut i: usize = 0;
    proof {
        assert(views(interfaces@).to_set() =~= Set::<Seq<char>>::empty());
    }
    while i < samples.len()
        invariant
            i <= samples.len(),
            uploaded == sent_total(samples@.take(i as int), true),
            downloaded == sent_total(samples@.take(i as int), false),
            strictly_sorted(views(interfaces@)),
            views(interfaces@).to_set() == Set::new(|k: Seq<char>| exists|j: int| 0 <= j < i
                && active_interface(#[trigger] samples@[j]) && samples@[j].name@ == k),
        decreases samples.len() - i,
    {
        proof {
            assert(samples@.take(i + 1).drop_last() =~= samples@.take(i as int));
        }
        let s = &samples[i];
        if should_include_interface(s.name.as_str()) {
            uploaded = match uploaded.checked_add(s.transmitted) {
                Some(v) => v,
                None => u64::MAX,
            };
            downloaded = match downloaded.checked_add(s.received) {
                Some(v) => v,
                None => u64::MAX,
            };
            if s.total_transmitted > 0 || s.total_received > 0 {
                sorted_insert(&mut interfaces, s.name.as_str());
            }
        }
        i = i + 1;
        proof {
            assert(views(interfaces@).to_set() =~= Set::new(|k: Seq<char>| exists|j: int| 0 <= j < i
                && active_interface(#[trigger] samples@[j]) && samples@[j].name@ == k)) by {
                assert forall|k: Seq<char>| (exists|j: int| 0 <= j < i && active_interface(#[trigger] samples@[j]) && samples@[j].name@ == k)
                    implies views(interfaces@).to_set().contains(k) by {
                    let j = choose|j: int| 0 <= j < i && active_interface(#[trigger] samples@[j]) && samples@[j].name@ == k;
                    if j < i - 1 {
                        assert(exists|jj: int| 0 <= jj < i - 1 && active_interface(#[trigger] samples@[jj]) && samples@[jj].name@ == k);
                    }
                }
            }
        }
    }
    proof {
        assert(samples@.take(samples.len() as int) =~= samples@);
        assert forall|k: Seq<char>| views(interfaces@).contains(k) <==> views(interfaces@).to_set().contains(k) by {}
    }
    (uploaded, downloaded, interfaces)
}

pub open spec fn flag_text(b: bool) -> Seq<char> {
    if b {
        "true"@
    } else {
        "false"@
    }
}

/// What the tray shows, as a key: the tray is redrawn only when it changes.
pub open spec fn spec_tray_key(enabled: bool, upload: u64, download: u64) -> Seq<char> {
    flag_text(enabled) + ":"@ + tray_rate_text(upload) + ":"@ + tray_rate_text(download)
}

pub fn tray_key(enabled: bool, upload: u64, download: u64) -> (r: String)
    ensures
        r@ == spec_tray_key(enabled, upload, download),
{
    let mut key = owned(if enabled {
        "true"
    } else {
        "false"
    });
    key.append(":");
    let up = format_tray_rate(upload);
    key.append(up.as_str());
    key.append(":");
    let down = format_tray_rate(download);
    key.append(down.as_str());
    key
}

/// The macOS variant, keyed by the two-row title.
pub open spec fn spec_title_key(enabled: bool, upload: u64, download: u64) -> Seq<char> {
    flag_text(enabled) + ":"@ + spec_display_key(upload, download)
}

pub fn title_key(enabled: bool, upload: u64, download: u64) -> (r: String)
    ensures
        r@ == spec_title_key(enabled, upload, download),
{
    let mut key = owned(if enabled {
        "true"
    } else {
        "false"
    });
    key.append(":");
    let rest = display_key(upload, download);
    key.append(rest.as_str());
    key
}


/// What the traffic monitor does on a tick.
#[derive(Debug, Clone, Copy, PartialEq, Eq, Structural)]
pub enum MonitorStep {
    /// Shut down: leave the loop.
    Stop,
    /// Disabled: forget the running measurement.
    Pause,
    /// Take a baseline and publish an empty sample.
    Start,
    /// Measure the deltas since the baseline and publish them.
    Sample,
}

/// The next step and whether a measurement is running after it.
pub fn monitor_step(shutdown: bool, enabled: bool, collecting: bool) -> (r: (MonitorStep, bool))
    ensures
        shutdown ==> r == (MonitorStep::Stop, collecting),
        !shutdown && !enabled ==> r == (MonitorStep::Pause, false),
        !shutdown && enabled && !collecting ==> r == (MonitorStep::Start, true),
        !shutdown && enabled && collecting ==> r == (MonitorStep::Sample, true),
{
    if shutdown {
        (MonitorStep::Stop, collecting)
    } else if !enabled {
        (MonitorStep::Pause, false)
    } else if !collecting {
        (MonitorStep::Start, true)
    } else {
        (MonitorStep::Sample, true)
    }
}


/// Loopback and virtual devices never count toward the global rate, and every
/// other interface does: a name is excluded exactly when, trimmed and ASCII
/// lower-cased, it is empty, `lo`, `lo0` or `loopback`, starts with one of the
/// tunnel, VPN, container, bridge and virtual-adapter prefixes (`utun`, `tun`,
/// `tap`, `tailscale`, `wg`, `wireguard`, `docker`, `veth`, `virbr`, `bridge`,
/// `br-`, `awdl`, `llw`, `anpi`, `gif`, `stf`, `vmnet`, `vboxnet`, `zt`,
/// `zerotier`, `ham`, `nordlynx`), or contains `loopback`, `virtual` or ` vpn`.
pub proof fn only_physical_interfaces_count(name: Seq<char>)
    ensures
        ({
            let n = lower(trimmed(name));
            !excluded_interface(n) <==> !(n.len() == 0 || n == "lo"@ || n == "lo0"@ || n == "loopback"@
                || starts_with(n, "utun"@) || starts_with(n, "tun"@) || starts_with(n, "tap"@)
                || starts_with(n, "tailscale"@) || starts_with(n, "wg"@) || starts_with(n, "wireguard"@)
                || starts_with(n, "docker"@) || starts_with(n, "veth"@) || starts_with(n, "virbr"@)
                || starts_with(n, "bridge"@) || starts_with(n, "br-"@) || starts_with(n, "awdl"@)
                || starts_with(n, "llw"@) || starts_with(n, "anpi"@) || starts_with(n, "gif"@)
                || starts_with(n, "stf"@) || starts_with(n, "vmnet"@) || starts_with(n, "vboxnet"@)
                || starts_with(n, "zt"@) || starts_with(n, "zerotier"@) || starts_with(n, "ham"@)
                || starts_with(n, "nordlynx"@) || contains(n, "loopback"@) || contains(n, "virtual"@)
                || contains(n, " vpn"@))
        }),
{
}

} // verus!
