//! The canonical report's wire form: a fixed-shape JSON document with
//! stable field names, identical for local and remote sources. The encoder
//! is pinned to the spec-level text; the decoder accepts the canonical
//! form and rejects everything else.

use crate::date::Timestamp;
use crate::date::{valid_timestamp, Date};
use crate::numtext::{
    dec_digit_char, dec_digit_val, dec_str, dec_val, digits_in, hex_digit_char, is_dec_digit,
    lemma_dec_digit_char_val, lemma_dec_str_val, lemma_dec_val_concat, lemma_dec_val_push,
    lemma_dec_val_upper, pow10, push_dec_u64,
};
use crate::report::{
    IndustrialSoftwareDto, IpVersion, NetworkInterfaceDto, SoftwareDto, SysauditReport,
    SystemInfoDto,
};
use crate::text::{all_ws, char_from_u32, chars_to_string, lemma_char_bounds, str_to_chars};
use vstd::prelude::*;

verus! {

/// The escape of one character in a wire string: quote and backslash
/// escaped, control characters as four-digit escapes, everything else
/// verbatim.
pub open spec fn esc_char(c: char) -> Seq<char> {
    if c == '"' {
        seq!['\\', '"']
    } else if c == '\\' {
        seq!['\\', '\\']
    } else if (c as int) < 0x20 {
        seq!['\\', 'u', '0', '0', hex_digit_char(c as int / 16), hex_digit_char(c as int % 16)]
    } else {
        seq![c]
    }
}

/// The escaped body of a wire string.
pub open spec fn esc_text(s: Seq<char>) -> Seq<char>
    decreases s.len(),
{
    if s.len() == 0 {
        Seq::<char>::empty()
    } else {
        esc_text(s.drop_last()) + esc_char(s.last())
    }
}

/// A quoted, escaped wire string.
pub open spec fn enc_string(s: Seq<char>) -> Seq<char> {
    seq!['"'] + esc_text(s) + seq!['"']
}

/// The wire text for an absent value.
pub open spec fn null_text() -> Seq<char> {
    seq!['n', 'u', 'l', 'l']
}

/// An optional wire string: the string, or the absent-value text.
pub open spec fn enc_opt_string(o: Option<String>) -> Seq<char> {
    match o {
        Some(s) => enc_string(s@),
        None => null_text(),
    }
}

/// A number padded to two digits.
pub open spec fn pad2(n: int) -> Seq<char> {
    seq![dec_digit_char(n / 10 % 10), dec_digit_char(n % 10)]
}

/// A number padded to four digits.
pub open spec fn pad4(n: int) -> Seq<char> {
    seq![
        dec_digit_char(n / 1000 % 10),
        dec_digit_char(n / 100 % 10),
        dec_digit_char(n / 10 % 10),
        dec_digit_char(n % 10),
    ]
}

/// The instant text of a timestamp: date and time of day, UTC.
pub open spec fn instant_text(t: Timestamp) -> Seq<char> {
    pad4(t.date.year as int) + seq!['-'] + pad2(t.date.month as int) + seq!['-'] + pad2(
        t.date.day as int,
    ) + seq!['T'] + pad2(t.hour as int) + seq![':'] + pad2(t.minute as int) + seq![':'] + pad2(
        t.second as int,
    ) + seq!['Z']
}

/// A quoted instant.
pub open spec fn enc_instant(t: Timestamp) -> Seq<char> {
    seq!['"'] + instant_text(t) + seq!['"']
}

/// An optional quoted instant.
pub open spec fn enc_opt_instant(o: Option<Timestamp>) -> Seq<char> {
    match o {
        Some(t) => enc_instant(t),
        None => null_text(),
    }
}

/// The address family's wire text.
pub open spec fn enc_family(v: IpVersion) -> Seq<char> {
    match v {
        IpVersion::IPv4 => enc_string("IPv4"@),
        IpVersion::IPv6 => enc_string("IPv6"@),
    }
}

/// An optional core count.
pub open spec fn enc_opt_u32(o: Option<u32>) -> Seq<char> {
    match o {
        Some(n) => dec_str(n as nat),
        None => null_text(),
    }
}

/// One interface's wire object.
pub open spec fn enc_iface(n: NetworkInterfaceDto) -> Seq<char> {
    "{\"name\":"@ + enc_string(n.name@) + ",\"ip_address\":"@ + enc_string(n.ip_address@)
        + ",\"ip_version\":"@ + enc_family(n.ip_version) + ",\"mac_address\":"@ + enc_opt_string(
        n.mac_address,
    ) + "}"@
}

/// One software record's wire object.
pub open spec fn enc_software(s: SoftwareDto) -> Seq<char> {
    "{\"name\":"@ + enc_string(s.name@) + ",\"version\":"@ + enc_opt_string(s.version)
        + ",\"vendor\":"@ + enc_opt_string(s.vendor) + ",\"install_date\":"@ + enc_opt_instant(
        s.install_date,
    ) + "}"@
}

/// One industrial record's wire object.
pub open spec fn enc_industrial(s: IndustrialSoftwareDto) -> Seq<char> {
    "{\"vendor\":"@ + enc_string(s.vendor@) + ",\"product\":"@ + enc_string(s.product@)
        + ",\"version\":"@ + enc_opt_string(s.version) + ",\"install_path\":"@ + enc_opt_string(
        s.install_path,
    ) + "}"@
}

/// The comma-separated interface objects.
pub open spec fn enc_ifaces(s: Seq<NetworkInterfaceDto>) -> Seq<char>
    decreases s.len(),
{
    if s.len() == 0 {
        Seq::<char>::empty()
    } else if s.len() == 1 {
        enc_iface(s[0])
    } else {
        enc_ifaces(s.drop_last()) + seq![','] + enc_iface(s.last())
    }
}

/// The comma-separated software objects.
pub open spec fn enc_softwares(s: Seq<SoftwareDto>) -> Seq<char>
    decreases s.len(),
{
    if s.len() == 0 {
        Seq::<char>::empty()
    } else if s.len() == 1 {
        enc_software(s[0])
    } else {
        enc_softwares(s.drop_last()) + seq![','] + enc_software(s.last())
    }
}

/// The comma-separated industrial objects.
pub open spec fn enc_industrials(s: Seq<IndustrialSoftwareDto>) -> Seq<char>
    decreases s.len(),
{
    if s.len() == 0 {
        Seq::<char>::empty()
    } else if s.len() == 1 {
        enc_industrial(s[0])
    } else {
        enc_industrials(s.drop_last()) + seq![','] + enc_industrial(s.last())
    }
}

/// The system section's wire object.
pub open spec fn enc_system(s: SystemInfoDto) -> Seq<char> {
    "{\"os_name\":"@ + enc_string(s.os_name@) + ",\"os_version\":"@ + enc_string(s.os_version@)
        + ",\"host_name\":"@ + enc_string(s.host_name@) + ",\"cpu_info\":"@ + enc_string(
        s.cpu_info@,
    ) + ",\"cpu_physical_cores\":"@ + enc_opt_u32(s.cpu_physical_cores)
        + ",\"memory_total_bytes\":"@ + dec_str(s.memory_total_bytes as nat)
        + ",\"memory_used_bytes\":"@ + dec_str(s.memory_used_bytes as nat) + ",\"manufacturer\":"@
        + enc_opt_string(s.manufacturer) + ",\"model\":"@ + enc_opt_string(s.model)
        + ",\"network_interfaces\":["@ + enc_ifaces(s.network_interfaces@) + "]}"@
}

/// The whole report's wire document.
pub open spec fn enc_report(r: SysauditReport) -> Seq<char> {
    "{\"system\":"@ + enc_system(r.system) + ",\"software\":["@ + enc_softwares(r.software@)
        + "],\"industrial\":["@ + enc_industrials(r.industrial@) + "],\"timestamp\":"@
        + enc_instant(r.timestamp) + "}"@
}

/// The timestamp read from a quoted instant of the canonical shape;
/// nothing for any other text.
pub open spec fn instant_of(s: Seq<char>) -> Option<Timestamp> {
    if s.len() == 22 && s[0] == '"' && s[5] == '-' && s[8] == '-' && s[11] == 'T' && s[14] == ':'
        && s[17] == ':' && s[20] == 'Z' && s[21] == '"' && digits_in(s, 1, 5) && digits_in(s, 6, 8)
        && digits_in(s, 9, 11) && digits_in(s, 12, 14) && digits_in(s, 15, 17) && digits_in(
        s,
        18,
        20,
    ) {
        let y = dec_val(s.subrange(1, 5));
        let mo = dec_val(s.subrange(6, 8));
        let d = dec_val(s.subrange(9, 11));
        let h = dec_val(s.subrange(12, 14));
        let mi = dec_val(s.subrange(15, 17));
        let sec = dec_val(s.subrange(18, 20));
        if valid_timestamp(y, mo, d, h, mi, sec) {
            Some(
                Timestamp {
                    date: Date { year: y as u32, month: mo as u32, day: d as u32 },
                    hour: h as u32,
                    minute: mi as u32,
                    second: sec as u32,
                },
            )
        } else {
            None
        }
    } else {
        None
    }
}

/// A two-digit text is all digits and reads back as its number.
pub proof fn lemma_pad2_val(n: int)
    requires
        0 <= n < 100,
    ensures
        pad2(n).len() == 2,
        digits_in(pad2(n), 0, 2),
        dec_val(pad2(n)) == n,
{
    let s = pad2(n);
    reveal_with_fuel(dec_val, 4);
    lemma_dec_digit_char_val(n / 10 % 10);
    lemma_dec_digit_char_val(n % 10);
    assert(s.drop_last() =~= seq![dec_digit_char(n / 10 % 10)]);
    assert(s.drop_last().drop_last() =~= Seq::<char>::empty());
    assert(dec_val(s) == (n / 10 % 10) * 10 + n % 10);
    vstd::arithmetic::div_mod::lemma_fundamental_div_mod(n, 10);
    assert(n / 10 % 10 == n / 10);
    assert(dec_val(s) == n);
}

/// A four-digit text is all digits and reads back as its number.
pub proof fn lemma_pad4_val(n: int)
    requires
        0 <= n < 10000,
    ensures
        pad4(n).len() == 4,
        digits_in(pad4(n), 0, 4),
        dec_val(pad4(n)) == n,
{
    let s = pad4(n);
    reveal_with_fuel(dec_val, 6);
    lemma_dec_digit_char_val(n / 1000 % 10);
    lemma_dec_digit_char_val(n / 100 % 10);
    lemma_dec_digit_char_val(n / 10 % 10);
    lemma_dec_digit_char_val(n % 10);
    let s3 = s.drop_last();
    let s2 = s3.drop_last();
    let s1 = s2.drop_last();
    assert(s3 =~= seq![
        dec_digit_char(n / 1000 % 10),
        dec_digit_char(n / 100 % 10),
        dec_digit_char(n / 10 % 10),
    ]);
    assert(s2 =~= seq![dec_digit_char(n / 1000 % 10), dec_digit_char(n / 100 % 10)]);
    assert(s1 =~= seq![dec_digit_char(n / 1000 % 10)]);
    assert(s1.drop_last() =~= Seq::<char>::empty());
    assert(dec_val(s) == ((n / 1000 % 10) * 10 + n / 100 % 10) * 10 * 10 + (n / 10 % 10) * 10 + n
        % 10);
    vstd::arithmetic::div_mod::lemma_fundamental_div_mod(n, 10);
    vstd::arithmetic::div_mod::lemma_fundamental_div_mod(n / 10, 10);
    vstd::arithmetic::div_mod::lemma_fundamental_div_mod(n / 100, 10);
    assert(n / 1000 % 10 == n / 1000);
    assert(n / 10 / 10 == n / 100) by {
        vstd::arithmetic::div_mod::lemma_div_denominator(n, 10, 10);
    }
    assert(n / 100 / 10 == n / 1000) by {
        vstd::arithmetic::div_mod::lemma_div_denominator(n, 100, 10);
    }
    assert(dec_val(s) == n);
}

/// Law: a calendar-valid timestamp, encoded to its quoted instant text,
/// reads back as itself.
#[verifier::rlimit(100)]
#[verifier::spinoff_prover]
pub proof fn lemma_instant_round_trip(t: Timestamp)

    requires
        t.wf(),
    ensures
        instant_of(enc_instant(t)) == Some(t),
{
    let s = enc_instant(t);
    lemma_pad4_val(t.date.year as int);
    lemma_pad2_val(t.date.month as int);
    lemma_pad2_val(t.date.day as int);
    lemma_pad2_val(t.hour as int);
    lemma_pad2_val(t.minute as int);
    lemma_pad2_val(t.second as int);
    assert(s.len() == 22);
    assert(s.subrange(1, 5) =~= pad4(t.date.year as int));
    assert(s.subrange(6, 8) =~= pad2(t.date.month as int));
    assert(s.subrange(9, 11) =~= pad2(t.date.day as int));
    assert(s.subrange(12, 14) =~= pad2(t.hour as int));
    assert(s.subrange(15, 17) =~= pad2(t.minute as int));
    assert(s.subrange(18, 20) =~= pad2(t.second as int));
    assert(digits_in(s, 1, 5)) by {
        assert(forall|i: int| 1 <= i < 5 ==> s[i] == pad4(t.date.year as int)[i - 1]);
    }
    assert(digits_in(s, 6, 8)) by {
        assert(forall|i: int| 6 <= i < 8 ==> s[i] == pad2(t.date.month as int)[i - 6]);
    }
    assert(digits_in(s, 9, 11)) by {
        assert(forall|i: int| 9 <= i < 11 ==> s[i] == pad2(t.date.day as int)[i - 9]);
    }
    assert(digits_in(s, 12, 14)) by {
        assert(forall|i: int| 12 <= i < 14 ==> s[i] == pad2(t.hour as int)[i - 12]);
    }
    assert(digits_in(s, 15, 17)) by {
        assert(forall|i: int| 15 <= i < 17 ==> s[i] == pad2(t.minute as int)[i - 15]);
    }
    assert(digits_in(s, 18, 20)) by {
        assert(forall|i: int| 18 <= i < 20 ==> s[i] == pad2(t.second as int)[i - 18]);
    }
}

/// Appends a literal's characters.
fn push_lit(out: &mut Vec<char>, lit: &str)
    ensures
        final(out)@ == old(out)@ + lit@,
{
    let mut cs = str_to_chars(lit);
    out.append(&mut cs);
}

/// Appends a quoted, escaped wire string.
fn push_string(out: &mut Vec<char>, s: &str)
    ensures
        final(out)@ == old(out)@ + enc_string(s@),
{
    let cs = str_to_chars(s);
    out.push('"');
    let ghost base = out@;
    let mut i: usize = 0;
    proof {
        assert(cs@.subrange(0, 0) =~= Seq::<char>::empty());
        assert(out@ =~= base + esc_text(cs@.subrange(0, 0)));
    }
    while i < cs.len()
        invariant
            i <= cs@.len(),
            cs@ == s@,
            out@ == base + esc_text(cs@.subrange(0, i as int)),
        decreases cs@.len() - i,
    {
        let c = cs[i];
        proof {
            lemma_char_bounds(c);
        }
        if c == '"' {
            out.push('\\');
            out.push('"');
        } else if c == '\\' {
            out.push('\\');
            out.push('\\');
        } else if (c as u32) < 0x20 {
            let u = c as u32;
            out.push('\\');
            out.push('u');
            out.push('0');
            out.push('0');
            out.push(crate::numtext::hex_char_of_nibble((u / 16) as u8));
            out.push(crate::numtext::hex_char_of_nibble((u % 16) as u8));
        } else {
            out.push(c);
        }
        proof {
            let pre2 = cs@.subrange(0, i + 1 as int);
            assert(pre2.drop_last() =~= cs@.subrange(0, i as int));
            assert(pre2.last() == cs@[i as int]);
            assert(out@ =~= base + esc_text(pre2));
        }
        i = i + 1;
    }
    out.push('"');
    proof {
        assert(cs@.subrange(0, cs@.len() as int) =~= cs@);
        assert(out@ =~= old(out)@ + enc_string(s@));
    }
}

/// Appends an optional wire string.
fn push_opt_string(out: &mut Vec<char>, o: &Option<String>)
    ensures
        final(out)@ == old(out)@ + (match *o {
            Some(s) => enc_string(s@),
            None => null_text(),
        }),
{
    match o {
        Some(s) => push_string(out, s.as_str()),
        None => {
            out.push('n');
            out.push('u');
            out.push('l');
            out.push('l');
            assert(out@ =~= old(out)@ + null_text());
        },
    }
}

/// Appends a two-digit number.
fn push_pad2(out: &mut Vec<char>, n: u32)
    ensures
        final(out)@ == old(out)@ + pad2(n as int),
{
    out.push(dec_char(n / 10 % 10));
    out.push(dec_char(n % 10));
    assert(out@ =~= old(out)@ + pad2(n as int));
}

/// Appends a four-digit number.
fn push_pad4(out: &mut Vec<char>, n: u32)
    ensures
        final(out)@ == old(out)@ + pad4(n as int),
{
    out.push(dec_char(n / 1000 % 10));
    out.push(dec_char(n / 100 % 10));
    out.push(dec_char(n / 10 % 10));
    out.push(dec_char(n % 10));
    assert(out@ =~= old(out)@ + pad4(n as int));
}

/// The decimal digit character of a value below ten.
fn dec_char(d: u32) -> (c: char)
    requires
        d < 10,
    ensures
        c == dec_digit_char(d as int),
{
    match d {
        0 => '0',
        1 => '1',
        2 => '2',
        3 => '3',
        4 => '4',
        5 => '5',
        6 => '6',
        7 => '7',
        8 => '8',
        _ => '9',
    }
}

/// Appends a quoted instant.
fn push_instant(out: &mut Vec<char>, t: &Timestamp)
    ensures
        final(out)@ == old(out)@ + enc_instant(*t),
{
    out.push('"');
    push_pad4(out, t.date.year);
    out.push('-');
    push_pad2(out, t.date.month);
    out.push('-');
    push_pad2(out, t.date.day);
    out.push('T');
    push_pad2(out, t.hour);
    out.push(':');
    push_pad2(out, t.minute);
    out.push(':');
    push_pad2(out, t.second);
    out.push('Z');
    out.push('"');
    assert(out@ =~= old(out)@ + enc_instant(*t));
}

/// Appends one interface's wire object.
fn push_iface(out: &mut Vec<char>, n: &NetworkInterfaceDto)
    ensures
        final(out)@ == old(out)@ + enc_iface(*n),
{
    push_lit(out, "{\"name\":");
    push_string(out, n.name.as_str());
    push_lit(out, ",\"ip_address\":");
    push_string(out, n.ip_address.as_str());
    push_lit(out, ",\"ip_version\":");
    match n.ip_version {
        IpVersion::IPv4 => push_string(out, "IPv4"),
        IpVersion::IPv6 => push_string(out, "IPv6"),
    }
    push_lit(out, ",\"mac_address\":");
    push_opt_string(out, &n.mac_address);
    push_lit(out, "}");
    assert(out@ =~= old(out)@ + enc_iface(*n));
}

/// Appends one software record's wire object.
#[verifier::rlimit(100)]
#[verifier::spinoff_prover]
fn push_software(out: &mut Vec<char>, s: &SoftwareDto)
    ensures
        final(out)@ == old(out)@ + enc_software(*s),
{
    push_lit(out, "{\"name\":");
    push_string(out, s.name.as_str());
    push_lit(out, ",\"version\":");
    push_opt_string(out, &s.version);
    push_lit(out, ",\"vendor\":");
    push_opt_string(out, &s.vendor);
    push_lit(out, ",\"install_date\":");
    match &s.install_date {
        Some(t) => push_instant(out, t),
        None => push_lit(out, "null"),
    }
    push_lit(out, "}");
    proof {
        reveal_strlit("null");
        assert(out@ =~= old(out)@ + enc_software(*s));
    }
}

/// Appends one industrial record's wire object.
fn push_industrial(out: &mut Vec<char>, s: &IndustrialSoftwareDto)
    ensures
        final(out)@ == old(out)@ + enc_industrial(*s),
{
    push_lit(out, "{\"vendor\":");
    push_string(out, s.vendor.as_str());
    push_lit(out, ",\"product\":");
    push_string(out, s.product.as_str());
    push_lit(out, ",\"version\":");
    push_opt_string(out, &s.version);
    push_lit(out, ",\"install_path\":");
    push_opt_string(out, &s.install_path);
    push_lit(out, "}");
    assert(out@ =~= old(out)@ + enc_industrial(*s));
}

/// Appends the comma-separated interface objects.
fn push_ifaces(out: &mut Vec<char>, items: &Vec<NetworkInterfaceDto>)
    ensures
        final(out)@ == old(out)@ + enc_ifaces(items@),
{
    let ghost base = out@;
    let mut i: usize = 0;
    proof {
        assert(items@.subrange(0, 0) =~= Seq::<NetworkInterfaceDto>::empty());
        assert(out@ =~= base + enc_ifaces(items@.subrange(0, 0)));
    }
    while i < items.len()
        invariant
            i <= items@.len(),
            out@ == base + enc_ifaces(items@.subrange(0, i as int)),
        decreases items@.len() - i,
    {
        if i > 0 {
            out.push(',');
        }
        push_iface(out, &items[i]);
        proof {
            let pre2 = items@.subrange(0, i + 1 as int);
            assert(pre2.drop_last() =~= items@.subrange(0, i as int));
            assert(pre2.last() == items@[i as int]);
            assert(out@ =~= base + enc_ifaces(pre2));
        }
        i = i + 1;
    }
    proof {
        assert(items@.subrange(0, items@.len() as int) =~= items@);
    }
}

/// Appends the comma-separated software objects.
fn push_softwares(out: &mut Vec<char>, items: &Vec<SoftwareDto>)
    ensures
        final(out)@ == old(out)@ + enc_softwares(items@),
{
    let ghost base = out@;
    let mut i: usize = 0;
    proof {
        assert(items@.subrange(0, 0) =~= Seq::<SoftwareDto>::empty());
        assert(out@ =~= base + enc_softwares(items@.subrange(0, 0)));
    }
    while i < items.len()
        invariant
            i <= items@.len(),
            out@ == base + enc_softwares(items@.subrange(0, i as int)),
        decreases items@.len() - i,
    {
        if i > 0 {
            out.push(',');
        }
        push_software(out, &items[i]);
        proof {
            let pre2 = items@.subrange(0, i + 1 as int);
            assert(pre2.drop_last() =~= items@.subrange(0, i as int));
            assert(pre2.last() == items@[i as int]);
            assert(out@ =~= base + enc_softwares(pre2));
        }
        i = i + 1;
    }
    proof {
        assert(items@.subrange(0, items@.len() as int) =~= items@);
    }
}

/// Appends the comma-separated industrial objects.
fn push_industrials(out: &mut Vec<char>, items: &Vec<IndustrialSoftwareDto>)
    ensures
        final(out)@ == old(out)@ + enc_industrials(items@),
{
    let ghost base = out@;
    let mut i: usize = 0;
    proof {
        assert(items@.subrange(0, 0) =~= Seq::<IndustrialSoftwareDto>::empty());
        assert(out@ =~= base + enc_industrials(items@.subrange(0, 0)));
    }
    while i < items.len()
        invariant
            i <= items@.len(),
            out@ == base + enc_industrials(items@.subrange(0, i as int)),
        decreases items@.len() - i,
    {
        if i > 0 {
            out.push(',');
        }
        push_industrial(out, &items[i]);
        proof {
            let pre2 = items@.subrange(0, i + 1 as int);
            assert(pre2.drop_last() =~= items@.subrange(0, i as int));
            assert(pre2.last() == items@[i as int]);
            assert(out@ =~= base + enc_industrials(pre2));
        }
        i = i + 1;
    }
    proof {
        assert(items@.subrange(0, items@.len() as int) =~= items@);
    }
}

/// Appends a number in decimal.
fn push_u64(out: &mut Vec<char>, n: u64)
    ensures
        final(out)@ == old(out)@ + dec_str(n as nat),
{
    push_dec_u64(out, n);
}

/// Appends the system section's wire object.
#[verifier::rlimit(100)]
#[verifier::spinoff_prover]
fn push_system(out: &mut Vec<char>, s: &SystemInfoDto)
    ensures
        final(out)@ == old(out)@ + enc_system(*s),
{
    push_lit(out, "{\"os_name\":");
    push_string(out, s.os_name.as_str());
    push_lit(out, ",\"os_version\":");
    push_string(out, s.os_version.as_str());
    push_lit(out, ",\"host_name\":");
    push_string(out, s.host_name.as_str());
    push_lit(out, ",\"cpu_info\":");
    push_string(out, s.cpu_info.as_str());
    proof {
        assert(out@ =~= old(out)@ + "{\"os_name\":"@ + enc_string(s.os_name@)
            + ",\"os_version\":"@ + enc_string(s.os_version@) + ",\"host_name\":"@ + enc_string(
            s.host_name@,
        ) + ",\"cpu_info\":"@ + enc_string(s.cpu_info@));
    }
    push_lit(out, ",\"cpu_physical_cores\":");
    match s.cpu_physical_cores {
        Some(n) => push_u64(out, n as u64),
        None => push_lit(out, "null"),
    }
    push_lit(out, ",\"memory_total_bytes\":");
    push_u64(out, s.memory_total_bytes);
    push_lit(out, ",\"memory_used_bytes\":");
    push_u64(out, s.memory_used_bytes);
    proof {
        reveal_strlit("null");
        assert(out@ =~= old(out)@ + "{\"os_name\":"@ + enc_string(s.os_name@)
            + ",\"os_version\":"@ + enc_string(s.os_version@) + ",\"host_name\":"@ + enc_string(
            s.host_name@,
        ) + ",\"cpu_info\":"@ + enc_string(s.cpu_info@) + ",\"cpu_physical_cores\":"@
            + enc_opt_u32(s.cpu_physical_cores) + ",\"memory_total_bytes\":"@ + dec_str(
            s.memory_total_bytes as nat,
        ) + ",\"memory_used_bytes\":"@ + dec_str(s.memory_used_bytes as nat));
    }
    push_lit(out, ",\"manufacturer\":");
    push_opt_string(out, &s.manufacturer);
    push_lit(out, ",\"model\":");
    push_opt_string(out, &s.model);
    push_lit(out, ",\"network_interfaces\":[");
    push_ifaces(out, &s.network_interfaces);
    push_lit(out, "]}");
    proof {
        reveal_strlit("null");
        assert(out@ =~= old(out)@ + enc_system(*s));
    }
}

/// Encodes a report into its wire form, pinned to the spec-level text.
pub fn encode_report(r: &SysauditReport) -> (out: String)
    ensures
        out@ == enc_report(*r),
{
    let mut v: Vec<char> = Vec::new();
    push_lit(&mut v, "{\"system\":");
    push_system(&mut v, &r.system);
    push_lit(&mut v, ",\"software\":[");
    push_softwares(&mut v, &r.software);
    push_lit(&mut v, "],\"industrial\":[");
    push_industrials(&mut v, &r.industrial);
    push_lit(&mut v, "],\"timestamp\":");
    push_instant(&mut v, &r.timestamp);
    push_lit(&mut v, "}");
    proof {
        assert(v@ =~= enc_report(*r));
    }
    chars_to_string(&v)
}

/// Whether the text holds the given characters at the given position.
pub open spec fn lit_at(t: Seq<char>, pos: int, l: Seq<char>) -> bool {
    0 <= pos && pos + l.len() <= t.len() && t.subrange(pos, pos + l.len()) == l
}

/// Whether the text holds a quoted wire string at the position.
pub open spec fn str_at(t: Seq<char>, pos: int, s: Seq<char>) -> bool {
    lit_at(t, pos, enc_string(s))
}

/// Escaping one more character appends its escape.
proof fn lemma_esc_push(x: Seq<char>, c: char)
    ensures
        esc_text(x.push(c)) == esc_text(x) + esc_char(c),
{
    assert(x.push(c).drop_last() =~= x);
    assert(x.push(c).last() == c);
}

/// Escaping distributes over concatenation.
proof fn lemma_esc_concat(a: Seq<char>, b: Seq<char>)
    ensures
        esc_text(a + b) == esc_text(a) + esc_text(b),
    decreases b.len(),
{
    if b.len() == 0 {
        assert(a + b =~= a);
        assert(esc_text(b) =~= Seq::<char>::empty());
        assert(esc_text(a) + esc_text(b) =~= esc_text(a));
    } else {
        lemma_esc_concat(a, b.drop_last());
        assert((a + b).drop_last() =~= a + b.drop_last());
        assert((a + b).last() == b.last());
        assert(esc_text(a + b) =~= esc_text(a) + (esc_text(b.drop_last()) + esc_char(b.last())));
    }
}

/// The escaped text splits at any source position into the escaped prefix,
/// the next character's escape, and the escaped remainder.
proof fn lemma_esc_decomp(s: Seq<char>, k: int)
    requires
        0 <= k < s.len(),
    ensures
        esc_text(s) == esc_text(s.subrange(0, k)) + esc_char(s[k]) + esc_text(
            s.subrange(k + 1, s.len() as int),
        ),
        esc_text(s.subrange(0, k + 1)) == esc_text(s.subrange(0, k)) + esc_char(s[k]),
{
    let pre = s.subrange(0, k);
    let rest = s.subrange(k + 1, s.len() as int);
    assert(s.subrange(0, k + 1) =~= pre.push(s[k]));
    lemma_esc_push(pre, s[k]);
    assert(s =~= s.subrange(0, k + 1) + rest);
    lemma_esc_concat(s.subrange(0, k + 1), rest);
}

/// An escaped source prefix never outgrows the whole escaped text, and is
/// strictly shorter while source characters remain.
proof fn lemma_esc_prefix_len(s: Seq<char>, k: int)
    requires
        0 <= k <= s.len(),
    ensures
        esc_text(s.subrange(0, k)).len() <= esc_text(s).len(),
        k < s.len() ==> esc_text(s.subrange(0, k)).len() < esc_text(s).len(),
    decreases s.len() - k,
{
    if k == s.len() {
        assert(s.subrange(0, k) =~= s);
    } else {
        lemma_esc_decomp(s, k);
        lemma_esc_prefix_len(s, k + 1);
        assert(esc_char(s[k]).len() >= 1);
    }
}

/// The value of a hexadecimal digit character, either case.
pub open spec fn hex_val_of(c: char) -> Option<int> {
    if is_dec_digit(c) {
        Some(dec_digit_val(c))
    } else if 65 <= c as int <= 70 {
        Some(c as int - 55)
    } else if 97 <= c as int <= 102 {
        Some(c as int - 87)
    } else {
        None
    }
}

/// The upper-case hexadecimal digit of a value reads back as that value.
proof fn lemma_hex_digit_char_val(x: int)
    requires
        0 <= x < 16,
    ensures
        hex_val_of(hex_digit_char(x)) == Some(x),
{
    if x < 10 {
        lemma_dec_digit_char_val(x);
    }
}

/// Whether the characters at `pos` start with the literal.
fn at_lit(v: &Vec<char>, pos: usize, lit: &str) -> (r: Option<usize>)
    ensures
        r matches Some(p) ==> pos < p <= v@.len() && p == pos + lit@.len() && v@.subrange(
            pos as int,
            p as int,
        ) == lit@,
        (lit@.len() > 0 && lit_at(v@, pos as int, lit@)) ==> r == Some((pos + lit@.len()) as usize),
{
    let lc = str_to_chars(lit);
    let n = v.len();
    if lc.len() == 0 || pos >= n || n - pos < lc.len() {
        return None;
    }
    let mut i: usize = 0;
    while i < lc.len()
        invariant
            i <= lc@.len(),
            pos + lc@.len() <= n,
            n == v@.len(),
            lc@.len() > 0,
            lc@ == lit@,
            forall|j: int| 0 <= j < i ==> v@[pos + j] == lc@[j],
        decreases lc@.len() - i,
    {
        if v[pos + i] != lc[i] {
            proof {
                if lit_at(v@, pos as int, lit@) {
                    assert(v@.subrange(pos as int, pos + lit@.len())[i as int] == lit@[i as int]);
                }
            }
            return None;
        }
        i = i + 1;
    }
    proof {
        assert(v@.subrange(pos as int, pos + lit@.len()) =~= lit@);
    }
    Some(pos + lc.len())
}

/// What the text holds at the start of the next source character's
/// escape, and which source character that shape betrays.
proof fn lemma_chunk_case(s: Seq<char>, k: int, t: Seq<char>, p: int)
    requires
        0 <= k < s.len(),
        forall|j: int| 0 <= j < esc_char(s[k]).len() ==> t[p + j] == #[trigger] esc_char(s[k])[j],
    ensures
        t[p] == esc_char(s[k])[0],
        t[p] != '\\' ==> esc_char(s[k]) == seq![s[k]] && s[k] == t[p],
        t[p] == '\\' && t[p + 1] == '"' ==> s[k] == '"' && esc_char(s[k]).len() == 2,
        t[p] == '\\' && t[p + 1] == '\\' ==> s[k] == '\\' && esc_char(s[k]).len() == 2,
        t[p] == '\\' && t[p + 1] == 'u' ==> (s[k] as int) < 0x20 && esc_char(s[k]).len() == 6
            && t[p + 2] == '0' && t[p + 3] == '0' && t[p + 4] == hex_digit_char(
            s[k] as int / 16,
        ) && t[p + 5] == hex_digit_char(s[k] as int % 16),
        t[p] == '\\' ==> (t[p + 1] == '"' || t[p + 1] == '\\' || t[p + 1] == 'u'),
{
    let c = s[k];
    if c == '"' {
        assert(esc_char(s[k]) =~= seq!['\\', '"']);
        assert(t[p] == esc_char(s[k])[0]);
        assert(t[p + 1] == esc_char(s[k])[1]);
    } else if c == '\\' {
        assert(esc_char(s[k]) =~= seq!['\\', '\\']);
        assert(t[p] == esc_char(s[k])[0]);
        assert(t[p + 1] == esc_char(s[k])[1]);
    } else if (c as int) < 0x20 {
        assert(esc_char(s[k]) =~= seq![
            '\\',
            'u',
            '0',
            '0',
            hex_digit_char(c as int / 16),
            hex_digit_char(c as int % 16),
        ]);
        assert(t[p] == esc_char(s[k])[0]);
        assert(t[p + 1] == esc_char(s[k])[1]);
        assert(t[p + 2] == esc_char(s[k])[2]);
        assert(t[p + 3] == esc_char(s[k])[3]);
        assert(t[p + 4] == esc_char(s[k])[4]);
        assert(t[p + 5] == esc_char(s[k])[5]);
        crate::text::lemma_char_bounds(c);
    } else {
        assert(esc_char(s[k]) =~= seq![c]);
        assert(t[p] == esc_char(s[k])[0]);
        crate::text::lemma_char_bounds(c);
        assert(c != '\\');
    }
}

/// Reads a quoted, escaped wire string: exactly the text a string
/// encodes to reads back as that string. Beyond the canonical escapes the
/// reader also tolerates the common short escapes and any four-digit
/// escape; `decode_report` re-encodes the result, so tolerance here never
/// lets a non-canonical document through.
#[verifier::rlimit(100)]
#[verifier::spinoff_prover]
fn parse_string(v: &Vec<char>, pos: usize) -> (r: Option<(String, usize)>)
    ensures
        r matches Some((_, p)) ==> pos < p <= v@.len(),
        forall|s: Seq<char>|
            #![trigger enc_string(s)]
            str_at(v@, pos as int, s) ==> (r matches Some((out, p)) && out@ == s && p == pos
                + enc_string(s).len()),
{
    proof {
        assert forall|s: Seq<char>|
            #![trigger enc_string(s)]
            str_at(v@, pos as int, s) implies v@[pos as int] == '"' && pos + 2 <= v@.len() by {
            assert(v@.subrange(pos as int, pos + enc_string(s).len())[0] == enc_string(s)[0]);
        }
    }
    if pos >= v.len() || v[pos] != '"' {
        return None;
    }
    let mut out: Vec<char> = Vec::new();
    let mut p = pos + 1;
    proof {
        assert forall|s: Seq<char>|
            #![trigger enc_string(s)]
            str_at(v@, pos as int, s) implies out@ == s.subrange(0, out@.len() as int) && p == pos
            + 1 + esc_text(s.subrange(0, out@.len() as int)).len() by {
            assert(s.subrange(0, 0) =~= Seq::<char>::empty());
            assert(out@ =~= s.subrange(0, 0));
        }
    }
    loop
        invariant
            pos < p <= v@.len(),
            forall|s: Seq<char>|
                #![trigger enc_string(s)]
                str_at(v@, pos as int, s) ==> out@.len() <= s.len() && out@ == s.subrange(
                    0,
                    out@.len() as int,
                ) && p == pos + 1 + esc_text(s.subrange(0, out@.len() as int)).len(),
        decreases v@.len() - p,
    {
        let ghost k = out@.len() as int;
        let ghost old_out = out@;
        proof {
            assert forall|s: Seq<char>|
                #![trigger enc_string(s)]
                str_at(v@, pos as int, s) implies layout_at(v@, pos as int, s, k, p as int) by {
                lemma_esc_prefix_len(s, k);
                if k < s.len() {
                    lemma_esc_decomp(s, k);
                    assert forall|j: int|
                        0 <= j < esc_char(s[k]).len() implies v@[p + j] == #[trigger] esc_char(
                        s[k],
                    )[j] by {
                        assert(v@.subrange(pos as int, pos + enc_string(s).len())[p - pos + j]
                            == enc_string(s)[p - pos + j]);
                        assert(enc_string(s)[p - pos + j] == esc_text(s)[p - pos - 1 + j]);
                    }
                } else {
                    assert(out@ =~= s);
                    assert(v@.subrange(pos as int, pos + enc_string(s).len())[p - pos]
                        == enc_string(s)[p - pos]);
                }
            }
        }
        if p >= v.len() {
            proof {
                assert forall|s: Seq<char>|
                    #![trigger enc_string(s)]
                    !str_at(v@, pos as int, s) by {
                    if str_at(v@, pos as int, s) {
                        assert(layout_at(v@, pos as int, s, k, p as int));
                    }
                }
            }
            return None;
        }
        let c = v[p];
        if c == '"' {
            let r = chars_to_string(&out);
            proof {
                assert forall|s: Seq<char>|
                    #![trigger enc_string(s)]
                    str_at(v@, pos as int, s) implies out@ == s && p + 1 == pos + enc_string(
                    s,
                ).len() by {
                    assert(layout_at(v@, pos as int, s, k, p as int));
                    if k < s.len() {
                        lemma_chunk_case(s, k, v@, p as int);
                    }
                    assert(out@ =~= s);
                }
            }
            return Some((r, p + 1));
        }
        if c == '\\' {
            proof {
                assert forall|s: Seq<char>|
                    #![trigger enc_string(s)]
                    str_at(v@, pos as int, s) implies k < s.len() && p + 1 < v@.len() by {
                    assert(layout_at(v@, pos as int, s, k, p as int));
                    lemma_chunk_case(s, k, v@, p as int);
                    assert(esc_char(s[k]).len() >= 2);
                }
            }
            if p + 1 >= v.len() {
                proof {
                    assert forall|s: Seq<char>|
                        #![trigger enc_string(s)]
                        !str_at(v@, pos as int, s) by {}
                }
                return None;
            }
            let e = v[p + 1];
            if e == '"' || e == '\\' || e == '/' || e == 'n' || e == 't' || e == 'r' || e == 'b'
                || e == 'f' {
                let ch: char = if e == '"' {
                    '"'
                } else if e == '\\' {
                    '\\'
                } else if e == '/' {
                    '/'
                } else if e == 'n' {
                    '\n'
                } else if e == 't' {
                    '\t'
                } else if e == 'r' {
                    '\r'
                } else if e == 'b' {
                    (8 as u8) as char
                } else {
                    (12 as u8) as char
                };
                out.push(ch);
                proof {
                    assert forall|s: Seq<char>|
                        #![trigger enc_string(s)]
                        str_at(v@, pos as int, s) implies out@.len() <= s.len() && out@
                        == s.subrange(0, out@.len() as int) && p + 2 == pos + 1 + esc_text(
                        s.subrange(0, out@.len() as int),
                    ).len() by {
                        assert(layout_at(v@, pos as int, s, k, p as int));
                        lemma_chunk_case(s, k, v@, p as int);
                        assert(s[k] == ch);
                        lemma_esc_decomp(s, k);
                        assert(out@ =~= s.subrange(0, k + 1));
                    }
                }
                p = p + 2;
            } else if e == 'u' {
                let vl = v.len();
                proof {
                    assert forall|s: Seq<char>|
                        #![trigger enc_string(s)]
                        str_at(v@, pos as int, s) implies p + 6 <= vl && hex_ok(v@, p as int) by {
                        assert(layout_at(v@, pos as int, s, k, p as int));
                        lemma_chunk_case(s, k, v@, p as int);
                        let u = s[k] as int;
                        crate::text::lemma_char_bounds(s[k]);
                        lemma_hex_digit_char_val(u / 16);
                        lemma_hex_digit_char_val(u % 16);
                    }
                }
                if vl - p < 6 {
                    proof {
                        assert forall|s: Seq<char>|
                            #![trigger enc_string(s)]
                            !str_at(v@, pos as int, s) by {}
                    }
                    return None;
                }
                let d0 = match hex_val(v[p + 2]) {
                    Some(d) => d,
                    None => {
                        proof {
                            assert forall|s: Seq<char>|
                                #![trigger enc_string(s)]
                                !str_at(v@, pos as int, s) by {}
                        }
                        return None;
                    },
                };
                let d1 = match hex_val(v[p + 3]) {
                    Some(d) => d,
                    None => {
                        proof {
                            assert forall|s: Seq<char>|
                                #![trigger enc_string(s)]
                                !str_at(v@, pos as int, s) by {}
                        }
                        return None;
                    },
                };
                let d2 = match hex_val(v[p + 4]) {
                    Some(d) => d,
                    None => {
                        proof {
                            assert forall|s: Seq<char>|
                                #![trigger enc_string(s)]
                                !str_at(v@, pos as int, s) by {}
                        }
                        return None;
                    },
                };
                let d3 = match hex_val(v[p + 5]) {
                    Some(d) => d,
                    None => {
                        proof {
                            assert forall|s: Seq<char>|
                                #![trigger enc_string(s)]
                                !str_at(v@, pos as int, s) by {}
                        }
                        return None;
                    },
                };
                let code = ((d0 * 16 + d1) * 16 + d2) * 16 + d3;
                match char_from_u32(code) {
                    Some(ch) => {
                        out.push(ch);
                        proof {
                            assert forall|s: Seq<char>|
                                #![trigger enc_string(s)]
                                str_at(v@, pos as int, s) implies out@.len() <= s.len() && out@
                                == s.subrange(0, out@.len() as int) && p + 6 == pos + 1 + esc_text(
                                s.subrange(0, out@.len() as int),
                            ).len() by {
                                assert(layout_at(v@, pos as int, s, k, p as int));
                                lemma_chunk_case(s, k, v@, p as int);
                                let u = s[k] as int;
                                crate::text::lemma_char_bounds(s[k]);
                                lemma_hex_digit_char_val(u / 16);
                                lemma_hex_digit_char_val(u % 16);
                                assert(code == u);
                                assert(s[k] as u32 == code);
                                assert(ch as u32 == s[k] as u32);
                                crate::text::lemma_char_bounds(ch);
                                assert(ch == s[k]);
                                lemma_esc_decomp(s, k);
                                assert(out@ =~= s.subrange(0, k + 1));
                            }
                        }
                        p = p + 6;
                    },
                    None => {
                        proof {
                            assert forall|s: Seq<char>|
                                #![trigger enc_string(s)]
                                !str_at(v@, pos as int, s) by {
                                if str_at(v@, pos as int, s) {
                                    assert(layout_at(v@, pos as int, s, k, p as int));
                                    lemma_chunk_case(s, k, v@, p as int);
                                    let u = s[k] as int;
                                    crate::text::lemma_char_bounds(s[k]);
                                    lemma_hex_digit_char_val(u / 16);
                                    lemma_hex_digit_char_val(u % 16);
                                    assert(code == u);
                                    assert(s[k] as u32 == code);
                                }
                            }
                        }
                        return None;
                    },
                }
            } else {
                proof {
                    assert forall|s: Seq<char>|
                        #![trigger enc_string(s)]
                        !str_at(v@, pos as int, s) by {
                        if str_at(v@, pos as int, s) {
                            assert(layout_at(v@, pos as int, s, k, p as int));
                            lemma_chunk_case(s, k, v@, p as int);
                        }
                    }
                }
                return None;
            }
        } else {
            out.push(c);
            proof {
                assert forall|s: Seq<char>|
                    #![trigger enc_string(s)]
                    str_at(v@, pos as int, s) implies out@.len() <= s.len() && out@ == s.subrange(
                    0,
                    out@.len() as int,
                ) && p + 1 == pos + 1 + esc_text(s.subrange(0, out@.len() as int)).len() by {
                    assert(layout_at(v@, pos as int, s, k, p as int));
                    lemma_chunk_case(s, k, v@, p as int);
                    assert(s[k] == c);
                    lemma_esc_decomp(s, k);
                    assert(out@ =~= s.subrange(0, k + 1));
                }
            }
            p = p + 1;
        }
    }
}

/// What the canonical layout pins at the reader's position: within the
/// body, the next escape's characters in place; at its end, the closing
/// quote; and room for either.
spec fn layout_at(t: Seq<char>, pos: int, s: Seq<char>, k: int, p: int) -> bool {
    &&& (k < s.len() ==> p + esc_char(s[k]).len() <= t.len() && (forall|j: int|
        0 <= j < esc_char(s[k]).len() ==> t[p + j] == #[trigger] esc_char(s[k])[j]))
    &&& (k == s.len() ==> p < t.len() && t[p] == '"')
}

/// Whether the four characters after a four-digit escape's opener are the
/// two zero digits and two hexadecimal digits.
spec fn hex_ok(t: Seq<char>, p: int) -> bool {
    &&& hex_val_of(t[p + 2]) is Some
    &&& hex_val_of(t[p + 3]) is Some
    &&& hex_val_of(t[p + 4]) is Some
    &&& hex_val_of(t[p + 5]) is Some
}

/// The value of one hexadecimal digit character, either case.
fn hex_val(c: char) -> (r: Option<u32>)
    ensures
        r is Some <==> hex_val_of(c) is Some,
        r matches Some(d) ==> hex_val_of(c) == Some(d as int) && d < 16,
{
    let u = c as u32;
    proof {
        lemma_char_bounds(c);
    }
    if 48 <= u && u <= 57 {
        Some(u - 48)
    } else if 65 <= u && u <= 70 {
        Some(u - 55)
    } else if 97 <= u && u <= 102 {
        Some(u - 87)
    } else {
        None
    }
}

/// Whether the text holds a number's decimal digits at the position, with
/// no further digit following them.
pub open spec fn num_at(t: Seq<char>, pos: int, n: u64) -> bool {
    lit_at(t, pos, dec_str(n as nat)) && (pos + dec_str(n as nat).len() == t.len()
        || !is_dec_digit(t[pos + dec_str(n as nat).len()]))
}

/// Reads an unsigned decimal number: exactly the text a number encodes to,
/// followed by a non-digit, reads back as that number.
#[verifier::rlimit(100)]
#[verifier::spinoff_prover]
fn parse_u64(v: &Vec<char>, pos: usize) -> (r: Option<(u64, usize)>)
    ensures
        r matches Some((_, p)) ==> pos < p <= v@.len(),
        forall|n: u64|
            #![trigger dec_str(n as nat)]
            num_at(v@, pos as int, n) ==> (r matches Some((n2, p)) && n2 == n && p == pos + dec_str(
                n as nat,
            ).len()),
{
    let mut p = pos;
    let mut acc: u64 = 0;
    let mut seen = false;
    proof {
        if pos <= v@.len() {
            assert(v@.subrange(pos as int, pos as int) =~= Seq::<char>::empty());
        }
    }
    if pos >= v.len() {
        proof {
            assert forall|n: u64| #![trigger dec_str(n as nat)] !num_at(v@, pos as int, n) by {
                lemma_dec_str_val(n as nat);
            }
        }
        return None;
    }
    loop
        invariant
            pos <= p <= v@.len(),
            pos < v@.len(),
            digits_in(v@, pos as int, p as int),
            seen <==> p > pos,
            acc == dec_val(v@.subrange(pos as int, p as int)),
        ensures
            pos <= p <= v@.len(),
            digits_in(v@, pos as int, p as int),
            seen <==> p > pos,
            acc == dec_val(v@.subrange(pos as int, p as int)),
            p == v@.len() || !is_dec_digit(v@[p as int]),
        decreases v@.len() - p,
    {
        if p >= v.len() {
            break;
        }
        let c = v[p];
        let u = c as u32;
        proof {
            lemma_char_bounds(c);
        }
        if 48 <= u && u <= 57 {
            let d = (u - 48) as u64;
            if acc > (0xFFFF_FFFF_FFFF_FFFF - d) / 10 {
                proof {
                    assert forall|n: u64|
                        #![trigger dec_str(n as nat)]
                        !num_at(v@, pos as int, n) by {
                        if num_at(v@, pos as int, n) {
                            lemma_num_at_prefix(v@, pos as int, n, p as int);
                            let a = v@.subrange(pos as int, p as int);
                            lemma_dec_val_push(a, c);
                            assert(v@.subrange(pos as int, p + 1) =~= a.push(c));
                            assert(dec_val(v@.subrange(pos as int, p + 1)) <= n);
                        }
                    }
                }
                return None;
            }
            proof {
                lemma_dec_val_push(v@.subrange(pos as int, p as int), c);
                assert(v@.subrange(pos as int, p + 1) =~= v@.subrange(pos as int, p as int).push(
                    c,
                ));
            }
            acc = acc * 10 + d;
            seen = true;
            p = p + 1;
        } else {
            assert(!is_dec_digit(v@[p as int]));
            break;
        }
    }
    if seen {
        proof {
            assert forall|n: u64|
                #![trigger dec_str(n as nat)]
                num_at(v@, pos as int, n) implies acc == n && p == pos + dec_str(n as nat).len() by {
                lemma_dec_str_val(n as nat);
                let ll = dec_str(n as nat).len();
                if p < pos + ll {
                    assert(v@[p as int] == v@.subrange(pos as int, pos + ll)[p - pos]);
                    assert(is_dec_digit(v@[p as int]));
                    assert(p < v@.len());
                    assert(false);
                }
                if p > pos + ll {
                    assert(is_dec_digit(v@[pos + ll]));
                    assert(false);
                }
                assert(v@.subrange(pos as int, p as int) =~= dec_str(n as nat));
            }
        }
        Some((acc, p))
    } else {
        proof {
            assert forall|n: u64| #![trigger dec_str(n as nat)] !num_at(v@, pos as int, n) by {
                if num_at(v@, pos as int, n) {
                    lemma_dec_str_val(n as nat);
                    assert(v@[pos as int] == v@.subrange(
                        pos as int,
                        pos + dec_str(n as nat).len(),
                    )[0]);
                    assert(is_dec_digit(v@[pos as int]));
                }
            }
        }
        None
    }
}

/// Within a number's digits, the text consumed so far plus the next digit
/// never exceed the number.
proof fn lemma_num_at_prefix(t: Seq<char>, pos: int, n: u64, p: int)
    requires
        num_at(t, pos, n),
        pos <= p,
        digits_in(t, pos, p),
        p < t.len(),
        is_dec_digit(t[p]),
        p <= t.len(),
    ensures
        p < pos + dec_str(n as nat).len(),
        0 <= dec_val(t.subrange(pos, p + 1)) <= n,
        t.subrange(pos, p + 1) == dec_str(n as nat).subrange(0, p + 1 - pos),
{
    lemma_dec_str_val(n as nat);
    let d = dec_str(n as nat);
    let ll = d.len();
    if p >= pos + ll {
        assert(is_dec_digit(t[pos + ll]) || pos + ll == t.len());
        if pos + ll == t.len() {
            assert(false);
        } else {
            assert(digits_in(t, pos, p) && pos <= pos + ll < p + 1);
            assert(is_dec_digit(t[pos + ll]));
            assert(false);
        }
    }
    let a = t.subrange(pos, p + 1);
    assert(a =~= d.subrange(0, p + 1 - pos)) by {
        assert(forall|j: int|
            0 <= j < p + 1 - pos ==> t.subrange(pos, pos + ll)[j] == #[trigger] d[j]);
        assert(forall|j: int| 0 <= j < p + 1 - pos ==> a[j] == t[pos + j]);
    }
    let b = d.subrange(p + 1 - pos, ll as int);
    assert(d =~= a + b);
    lemma_dec_val_concat(a, b);
    crate::numtext::lemma_pow10_pos(b.len() as nat);
    assert(forall|j: int| 0 <= j < b.len() ==> #[trigger] b[j] == d[p + 1 - pos + j]);
    lemma_dec_val_upper(b);
    assert(forall|j: int| 0 <= j < a.len() ==> is_dec_digit(#[trigger] a[j]));
    lemma_dec_val_upper(a);
    assert(dec_val(a) * pow10(b.len() as nat) >= dec_val(a) * 1) by (nonlinear_arith)
        requires
            pow10(b.len() as nat) >= 1,
            dec_val(a) >= 0,
    ;
}

/// Whether the text holds an optional count at the position.
pub open spec fn opt_u32_at(t: Seq<char>, pos: int, o: Option<u32>) -> bool {
    match o {
        Some(n) => num_at(t, pos, n as u64),
        None => lit_at(t, pos, null_text()),
    }
}

/// Reads the absent-value text or a count, exactly.
fn parse_opt_u32(v: &Vec<char>, pos: usize) -> (r: Option<(Option<u32>, usize)>)
    ensures
        r matches Some((_, p)) ==> pos < p <= v@.len(),
        lit_at(v@, pos as int, null_text()) ==> (r matches Some((o, p)) && o is None && p == pos
            + 4),
        forall|n: u32|
            #![trigger dec_str(n as nat)]
            num_at(v@, pos as int, n as u64) ==> (r matches Some((o, p)) && o == Some(n) && p
                == pos + dec_str(n as nat).len()),
{
    proof {
        reveal_strlit("null");
        assert("null"@ =~= null_text());
    }
    let rn = at_lit(v, pos, "null");
    match rn {
        Some(p) => {
            proof {
                assert forall|n: u32|
                    #![trigger dec_str(n as nat)]
                    !num_at(v@, pos as int, n as u64) by {
                    if num_at(v@, pos as int, n as u64) {
                        lemma_dec_str_val((n as u64) as nat);
                        assert(v@[pos as int] == v@.subrange(
                            pos as int,
                            pos + dec_str((n as u64) as nat).len(),
                        )[0]);
                        assert(is_dec_digit(v@[pos as int]));
                        assert(v@[pos as int] == null_text()[0]);
                    }
                }
            }
            Some((None, p))
        },
        None => match parse_u64(v, pos) {
            Some((n, p)) => {
                if n > 0xFFFF_FFFF {
                    proof {
                        assert forall|m: u32|
                            #![trigger dec_str(m as nat)]
                            !num_at(v@, pos as int, m as u64) by {}
                    }
                    return None;
                }
                proof {
                    assert forall|m: u32|
                        #![trigger dec_str(m as nat)]
                        num_at(v@, pos as int, m as u64) implies n == m as u64 && (n
                        as u32) == m by {}
                }
                Some((Some(n as u32), p))
            },
            None => None,
        },
    }
}

/// Reads the absent-value text or a quoted string, exactly.
fn parse_opt_string(v: &Vec<char>, pos: usize) -> (r: Option<(Option<String>, usize)>)
    ensures
        r matches Some((_, p)) ==> pos < p <= v@.len(),
        lit_at(v@, pos as int, null_text()) ==> (r matches Some((o, p)) && o is None && p == pos
            + 4),
        forall|s: Seq<char>|
            #![trigger enc_string(s)]
            str_at(v@, pos as int, s) ==> (r matches Some((o, p)) && o matches Some(os) && os@ == s
                && p == pos + enc_string(s).len()),
{
    proof {
        reveal_strlit("null");
        assert("null"@ =~= null_text());
    }
    match at_lit(v, pos, "null") {
        Some(p) => {
            proof {
                assert forall|s: Seq<char>|
                    #![trigger enc_string(s)]
                    !str_at(v@, pos as int, s) by {
                    if str_at(v@, pos as int, s) {
                        assert(v@.subrange(pos as int, pos + enc_string(s).len())[0]
                            == enc_string(s)[0]);
                        assert(v@.subrange(pos as int, pos + 4)[0] == null_text()[0]);
                    }
                }
            }
            Some((None, p))
        },
        None => match parse_string(v, pos) {
            Some((s, p)) => Some((Some(s), p)),
            None => None,
        },
    }
}

/// Reads a quoted instant: exactly the text a calendar-valid timestamp
/// encodes to reads back as that timestamp.
fn parse_instant(v: &Vec<char>, pos: usize) -> (r: Option<(Timestamp, usize)>)
    ensures
        r matches Some((t, p)) ==> p == pos + 22 && pos + 22 <= v@.len() && t.wf() && instant_of(
            v@.subrange(pos as int, pos + 22),
        ) == Some(t),
        forall|t2: Timestamp|
            #![trigger enc_instant(t2)]
            (t2.wf() && lit_at(v@, pos as int, enc_instant(t2))) ==> (r matches Some((t3, p)) && t3
                == t2 && p == pos + 22),
{
    let r = parse_instant_raw(v, pos);
    proof {
        assert forall|t2: Timestamp|
            #![trigger enc_instant(t2)]
            (t2.wf() && lit_at(v@, pos as int, enc_instant(t2))) implies (r matches Some((t3, p))
            && t3 == t2 && p == pos + 22) by {
            lemma_instant_round_trip(t2);
            assert(enc_instant(t2).len() == 22);
            assert(v@.subrange(pos as int, pos + 22) == enc_instant(t2));
        }
    }
    r
}

/// Reads a quoted instant and checks it is calendar-valid. Accepts
/// exactly the texts `instant_of` accepts.
fn parse_instant_raw(v: &Vec<char>, pos: usize) -> (r: Option<(Timestamp, usize)>)
    ensures
        r matches Some((t, p)) ==> p == pos + 22 && pos + 22 <= v@.len() && t.wf() && instant_of(
            v@.subrange(pos as int, pos + 22),
        ) == Some(t),
        r is None && pos + 22 <= v@.len() ==> instant_of(v@.subrange(pos as int, pos + 22))
            is None,
{
    if pos >= v.len() || v.len() - pos < 22 {
        return None;
    }
    let ghost s = v@.subrange(pos as int, pos + 22);
    assert(forall|k: int| 0 <= k < 22 ==> s[k] == v@[pos + k]);
    if v[pos] != '"' || v[pos + 5] != '-' || v[pos + 8] != '-' || v[pos + 11] != 'T' || v[pos + 14]
        != ':' || v[pos + 17] != ':' || v[pos + 20] != 'Z' || v[pos + 21] != '"' {
        return None;
    }
    let year = match crate::numtext::parse_digits_u32(v, pos + 1, pos + 5) {
        Some(n) => n,
        None => {
            assert(!digits_in(s, 1, 5)) by {
                assert(forall|k: int|
                    pos + 1 <= k < pos + 5 ==> v@[k] == s[k - pos]);
            }
            return None;
        },
    };
    let month = match crate::numtext::parse_digits_u32(v, pos + 6, pos + 8) {
        Some(n) => n,
        None => {
            assert(!digits_in(s, 6, 8)) by {
                assert(forall|k: int|
                    pos + 6 <= k < pos + 8 ==> v@[k] == s[k - pos]);
            }
            return None;
        },
    };
    let day = match crate::numtext::parse_digits_u32(v, pos + 9, pos + 11) {
        Some(n) => n,
        None => {
            assert(!digits_in(s, 9, 11)) by {
                assert(forall|k: int|
                    pos + 9 <= k < pos + 11 ==> v@[k] == s[k - pos]);
            }
            return None;
        },
    };
    let hour = match crate::numtext::parse_digits_u32(v, pos + 12, pos + 14) {
        Some(n) => n,
        None => {
            assert(!digits_in(s, 12, 14)) by {
                assert(forall|k: int|
                    pos + 12 <= k < pos + 14 ==> v@[k] == s[k - pos]);
            }
            return None;
        },
    };
    let minute = match crate::numtext::parse_digits_u32(v, pos + 15, pos + 17) {
        Some(n) => n,
        None => {
            assert(!digits_in(s, 15, 17)) by {
                assert(forall|k: int|
                    pos + 15 <= k < pos + 17 ==> v@[k] == s[k - pos]);
            }
            return None;
        },
    };
    let second = match crate::numtext::parse_digits_u32(v, pos + 18, pos + 20) {
        Some(n) => n,
        None => {
            assert(!digits_in(s, 18, 20)) by {
                assert(forall|k: int|
                    pos + 18 <= k < pos + 20 ==> v@[k] == s[k - pos]);
            }
            return None;
        },
    };
    proof {
        assert(s.subrange(1, 5) =~= v@.subrange(pos + 1, pos + 5));
        assert(s.subrange(6, 8) =~= v@.subrange(pos + 6, pos + 8));
        assert(s.subrange(9, 11) =~= v@.subrange(pos + 9, pos + 11));
        assert(s.subrange(12, 14) =~= v@.subrange(pos + 12, pos + 14));
        assert(s.subrange(15, 17) =~= v@.subrange(pos + 15, pos + 17));
        assert(s.subrange(18, 20) =~= v@.subrange(pos + 18, pos + 20));
        assert(digits_in(s, 1, 5)) by {
            assert(forall|k: int| 1 <= k < 5 ==> s[k] == v@[pos + k]);
        }
        assert(digits_in(s, 6, 8)) by {
            assert(forall|k: int| 6 <= k < 8 ==> s[k] == v@[pos + k]);
        }
        assert(digits_in(s, 9, 11)) by {
            assert(forall|k: int| 9 <= k < 11 ==> s[k] == v@[pos + k]);
        }
        assert(digits_in(s, 12, 14)) by {
            assert(forall|k: int| 12 <= k < 14 ==> s[k] == v@[pos + k]);
        }
        assert(digits_in(s, 15, 17)) by {
            assert(forall|k: int| 15 <= k < 17 ==> s[k] == v@[pos + k]);
        }
        assert(digits_in(s, 18, 20)) by {
            assert(forall|k: int| 18 <= k < 20 ==> s[k] == v@[pos + k]);
        }
    }
    match Timestamp::from_parts(year, month, day, hour, minute, second) {
        Some(t) => Some((t, pos + 22)),
        None => None,
    }
}

/// Escaping text made of ordinary characters leaves it unchanged.
proof fn lemma_esc_plain(s: Seq<char>)
    requires
        forall|i: int| 0 <= i < s.len() ==> s[i] != '"' && s[i] != '\\' && (s[i] as int) >= 0x20,
    ensures
        esc_text(s) == s,
    decreases s.len(),
{
    if s.len() > 0 {
        let p = s.drop_last();
        assert(forall|i: int| 0 <= i < p.len() ==> p[i] == s[i]);
        lemma_esc_plain(p);
        assert(esc_char(s.last()) =~= seq![s.last()]);
        assert(esc_text(s) =~= p + seq![s.last()]);
        assert(esc_text(s) =~= s);
    }
}

/// The two family texts, spelled out.
proof fn lemma_family_texts()
    ensures
        enc_family(IpVersion::IPv4) == "\"IPv4\""@,
        enc_family(IpVersion::IPv6) == "\"IPv6\""@,
        "\"IPv4\""@ != "\"IPv6\""@,
        "\"IPv4\""@.len() == 6,
        "\"IPv6\""@.len() == 6,
{
    reveal_strlit("IPv4");
    reveal_strlit("IPv6");
    reveal_strlit("\"IPv4\"");
    reveal_strlit("\"IPv6\"");
    lemma_esc_plain("IPv4"@);
    lemma_esc_plain("IPv6"@);
    assert(enc_string("IPv4"@) =~= "\"IPv4\""@);
    assert(enc_string("IPv6"@) =~= "\"IPv6\""@);
    assert("\"IPv4\""@[4] != "\"IPv6\""@[4]);
}

/// Whether the text holds an interface object at the position.
pub open spec fn iface_at(t: Seq<char>, pos: int, x: NetworkInterfaceDto) -> bool {
    lit_at(t, pos, enc_iface(x))
}

/// Where an interface object's name value starts.
pub open spec fn iface_o1(pos: int, x: NetworkInterfaceDto) -> int {
    pos + "{\"name\":"@.len()
}

/// Where the address field's label starts.
pub open spec fn iface_o2(pos: int, x: NetworkInterfaceDto) -> int {
    iface_o1(pos, x) + enc_string(x.name@).len()
}

/// Where the address value starts.
pub open spec fn iface_o3(pos: int, x: NetworkInterfaceDto) -> int {
    iface_o2(pos, x) + ",\"ip_address\":"@.len()
}

/// Where the family field's label starts.
pub open spec fn iface_o4(pos: int, x: NetworkInterfaceDto) -> int {
    iface_o3(pos, x) + enc_string(x.ip_address@).len()
}

/// Where the hardware-address value starts.
pub open spec fn iface_o5(pos: int, x: NetworkInterfaceDto) -> int {
    iface_o4(pos, x) + ",\"ip_version\":"@.len() + enc_family(x.ip_version).len()
        + ",\"mac_address\":"@.len()
}

/// Where the object's closing brace sits.
pub open spec fn iface_o6(pos: int, x: NetworkInterfaceDto) -> int {
    iface_o5(pos, x) + enc_opt_string(x.mac_address).len()
}

/// Where each piece of an interface object sits in the text that holds it.
proof fn lemma_iface_slices(t: Seq<char>, pos: int, x: NetworkInterfaceDto)
    requires
        iface_at(t, pos, x),
    ensures
        slices_hold_iface(t, pos, x),
{
    reveal_strlit("}");
    lemma_lit_split(t, pos, "{\"name\":"@ + enc_string(x.name@) + ",\"ip_address\":"@ + enc_string(x.ip_address@) + ",\"ip_version\":"@ + enc_family(x.ip_version) + ",\"mac_address\":"@ + enc_opt_string(x.mac_address), "}"@);
    lemma_lit_split(t, pos, "{\"name\":"@ + enc_string(x.name@) + ",\"ip_address\":"@ + enc_string(x.ip_address@) + ",\"ip_version\":"@ + enc_family(x.ip_version) + ",\"mac_address\":"@, enc_opt_string(x.mac_address));
    lemma_lit_split(t, pos, "{\"name\":"@ + enc_string(x.name@) + ",\"ip_address\":"@ + enc_string(x.ip_address@) + ",\"ip_version\":"@ + enc_family(x.ip_version), ",\"mac_address\":"@);
    lemma_lit_split(t, pos, "{\"name\":"@ + enc_string(x.name@) + ",\"ip_address\":"@ + enc_string(x.ip_address@) + ",\"ip_version\":"@, enc_family(x.ip_version));
    lemma_lit_split(t, pos, "{\"name\":"@ + enc_string(x.name@) + ",\"ip_address\":"@ + enc_string(x.ip_address@), ",\"ip_version\":"@);
    lemma_lit_split(t, pos, "{\"name\":"@ + enc_string(x.name@) + ",\"ip_address\":"@, enc_string(x.ip_address@));
    lemma_lit_split(t, pos, "{\"name\":"@ + enc_string(x.name@), ",\"ip_address\":"@);
    lemma_lit_split(t, pos, "{\"name\":"@, enc_string(x.name@));
    assert("}"@.len() == 1);
    match x.mac_address {
        Some(m) => {
            assert(str_at(t, iface_o5(pos, x), m@));
        },
        None => {
            assert(lit_at(t, iface_o5(pos, x), null_text())) by {
                reveal_strlit("null");
                assert("null"@ =~= null_text());
            }
        },
    }
}

/// Reads one interface object: exactly the text an interface encodes to
/// reads back as an interface that encodes to that text.
#[verifier::rlimit(100)]
#[verifier::spinoff_prover]
fn parse_iface(v: &Vec<char>, pos: usize) -> (r: Option<(NetworkInterfaceDto, usize)>)
    ensures
        r matches Some((_, p)) ==> pos < p <= v@.len(),
        forall|x: NetworkInterfaceDto|
            #![trigger enc_iface(x)]
            iface_at(v@, pos as int, x) ==> (r matches Some((y, p)) && enc_iface(y) == enc_iface(x)
                && p == pos + enc_iface(x).len()),
{
    proof {
        reveal_strlit("{\"name\":");
        reveal_strlit(",\"ip_address\":");
        reveal_strlit(",\"ip_version\":");
        reveal_strlit(",\"mac_address\":");
        reveal_strlit("}");
        lemma_family_texts();
        assert forall|x: NetworkInterfaceDto|
            #![trigger enc_iface(x)]
            iface_at(v@, pos as int, x) implies slices_hold_iface(v@, pos as int, x) by {
            lemma_iface_slices(v@, pos as int, x);
        }
    }
    let p1 = match at_lit(v, pos, "{\"name\":") {
        Some(p) => p,
        None => {
            return None;
        },
    };
    let (name, p2) = match parse_string(v, p1) {
        Some(x) => x,
        None => {
            return None;
        },
    };
    let p3 = match at_lit(v, p2, ",\"ip_address\":") {
        Some(p) => p,
        None => {
            return None;
        },
    };
    let (ip_address, p4) = match parse_string(v, p3) {
        Some(x) => x,
        None => {
            return None;
        },
    };
    let p5 = match at_lit(v, p4, ",\"ip_version\":") {
        Some(p) => p,
        None => {
            return None;
        },
    };
    let r4 = at_lit(v, p5, "\"IPv4\"");
    let r6 = at_lit(v, p5, "\"IPv6\"");
    let (ip_version, p6) = match r4 {
        Some(p) => (IpVersion::IPv4, p),
        None => match r6 {
            Some(p) => (IpVersion::IPv6, p),
            None => {
                return None;
            },
        },
    };
    proof {
        assert forall|x: NetworkInterfaceDto|
            #![trigger enc_iface(x)]
            iface_at(v@, pos as int, x) implies p6 == iface_o4(pos as int, x)
            + ",\"ip_version\":"@.len() + enc_family(x.ip_version).len() && x.ip_version
            == ip_version by {
            assert(slices_hold_iface(v@, pos as int, x));
            assert(p1 == iface_o1(pos as int, x));
            assert(name@ == x.name@);
            assert(p2 == iface_o2(pos as int, x));
            assert(p3 == iface_o3(pos as int, x));
            assert(ip_address@ == x.ip_address@);
            assert(p4 == iface_o4(pos as int, x));
            assert(p5 == iface_o4(pos as int, x) + ",\"ip_version\":"@.len());
            match x.ip_version {
                IpVersion::IPv4 => {
                    assert(lit_at(v@, p5 as int, "\"IPv4\""@));
                    assert(r4 == Some((p5 + "\"IPv4\""@.len()) as usize));
                },
                IpVersion::IPv6 => {
                    assert(lit_at(v@, p5 as int, "\"IPv6\""@));
                    if r4 is Some {
                        assert(v@.subrange(p5 as int, p5 + 6) == "\"IPv4\""@);
                        assert(v@.subrange(p5 as int, p5 + 6) == "\"IPv6\""@);
                    }
                    assert(r6 == Some((p5 + "\"IPv6\""@.len()) as usize));
                },
            }
        }
    }
    let p7 = match at_lit(v, p6, ",\"mac_address\":") {
        Some(p) => p,
        None => {
            return None;
        },
    };
    let (mac_address, p8) = match parse_opt_string(v, p7) {
        Some(x) => x,
        None => {
            return None;
        },
    };
    let p9 = match at_lit(v, p8, "}") {
        Some(p) => p,
        None => {
            return None;
        },
    };
    Some((NetworkInterfaceDto { name, ip_address, ip_version, mac_address }, p9))
}

/// All of an interface object's pieces, in place.
spec fn slices_hold_iface(t: Seq<char>, pos: int, x: NetworkInterfaceDto) -> bool {
    &&& lit_at(t, pos, "{\"name\":"@)
    &&& str_at(t, iface_o1(pos, x), x.name@)
    &&& lit_at(t, iface_o2(pos, x), ",\"ip_address\":"@)
    &&& str_at(t, iface_o3(pos, x), x.ip_address@)
    &&& lit_at(t, iface_o4(pos, x), ",\"ip_version\":"@)
    &&& lit_at(t, iface_o4(pos, x) + ",\"ip_version\":"@.len(), enc_family(x.ip_version))
    &&& lit_at(
        t,
        iface_o4(pos, x) + ",\"ip_version\":"@.len() + enc_family(x.ip_version).len(),
        ",\"mac_address\":"@,
    )
    &&& (x.mac_address matches Some(m) ==> str_at(t, iface_o5(pos, x), m@))
    &&& (x.mac_address is None ==> lit_at(t, iface_o5(pos, x), null_text()))
    &&& lit_at(t, iface_o6(pos, x), "}"@)
    &&& pos + enc_iface(x).len() == iface_o6(pos, x) + 1
}

/// Whether the text holds a software object with a calendar-valid install
/// instant at the position.
pub open spec fn soft_at(t: Seq<char>, pos: int, x: SoftwareDto) -> bool {
    lit_at(t, pos, enc_software(x)) && (x.install_date matches Some(ts) ==> ts.wf())
}

/// Where a software object's name value starts.
pub open spec fn soft_o1(pos: int, x: SoftwareDto) -> int {
    pos + "{\"name\":"@.len()
}

/// Where the version value starts.
pub open spec fn soft_o2(pos: int, x: SoftwareDto) -> int {
    soft_o1(pos, x) + enc_string(x.name@).len() + ",\"version\":"@.len()
}

/// Where the vendor value starts.
pub open spec fn soft_o3(pos: int, x: SoftwareDto) -> int {
    soft_o2(pos, x) + enc_opt_string(x.version).len() + ",\"vendor\":"@.len()
}

/// Where the install-instant value starts.
pub open spec fn soft_o4(pos: int, x: SoftwareDto) -> int {
    soft_o3(pos, x) + enc_opt_string(x.vendor).len() + ",\"install_date\":"@.len()
}

/// Where the object's closing brace sits.
pub open spec fn soft_o5(pos: int, x: SoftwareDto) -> int {
    soft_o4(pos, x) + enc_opt_instant(x.install_date).len()
}

/// All of a software object's pieces, in place.
spec fn slices_hold_soft(t: Seq<char>, pos: int, x: SoftwareDto) -> bool {
    &&& lit_at(t, pos, "{\"name\":"@)
    &&& str_at(t, soft_o1(pos, x), x.name@)
    &&& lit_at(t, soft_o1(pos, x) + enc_string(x.name@).len(), ",\"version\":"@)
    &&& (x.version matches Some(s) ==> str_at(t, soft_o2(pos, x), s@))
    &&& (x.version is None ==> lit_at(t, soft_o2(pos, x), null_text()))
    &&& lit_at(t, soft_o2(pos, x) + enc_opt_string(x.version).len(), ",\"vendor\":"@)
    &&& (x.vendor matches Some(s) ==> str_at(t, soft_o3(pos, x), s@))
    &&& (x.vendor is None ==> lit_at(t, soft_o3(pos, x), null_text()))
    &&& lit_at(t, soft_o3(pos, x) + enc_opt_string(x.vendor).len(), ",\"install_date\":"@)
    &&& (x.install_date matches Some(ts) ==> lit_at(t, soft_o4(pos, x), enc_instant(ts)))
    &&& (x.install_date is None ==> lit_at(t, soft_o4(pos, x), null_text()))
    &&& lit_at(t, soft_o5(pos, x), "}"@)
    &&& pos + enc_software(x).len() == soft_o5(pos, x) + 1
}

/// Where each piece of a software object sits in the text that holds it.
proof fn lemma_soft_slices(t: Seq<char>, pos: int, x: SoftwareDto)
    requires
        lit_at(t, pos, enc_software(x)),
    ensures
        slices_hold_soft(t, pos, x),
{
    reveal_strlit("}");
    reveal_strlit("null");
    assert("null"@ =~= null_text());
    lemma_lit_split(t, pos, "{\"name\":"@ + enc_string(x.name@) + ",\"version\":"@ + enc_opt_string(x.version) + ",\"vendor\":"@ + enc_opt_string(x.vendor) + ",\"install_date\":"@ + enc_opt_instant(x.install_date), "}"@);
    lemma_lit_split(t, pos, "{\"name\":"@ + enc_string(x.name@) + ",\"version\":"@ + enc_opt_string(x.version) + ",\"vendor\":"@ + enc_opt_string(x.vendor) + ",\"install_date\":"@, enc_opt_instant(x.install_date));
    lemma_lit_split(t, pos, "{\"name\":"@ + enc_string(x.name@) + ",\"version\":"@ + enc_opt_string(x.version) + ",\"vendor\":"@ + enc_opt_string(x.vendor), ",\"install_date\":"@);
    lemma_lit_split(t, pos, "{\"name\":"@ + enc_string(x.name@) + ",\"version\":"@ + enc_opt_string(x.version) + ",\"vendor\":"@, enc_opt_string(x.vendor));
    lemma_lit_split(t, pos, "{\"name\":"@ + enc_string(x.name@) + ",\"version\":"@ + enc_opt_string(x.version), ",\"vendor\":"@);
    lemma_lit_split(t, pos, "{\"name\":"@ + enc_string(x.name@) + ",\"version\":"@, enc_opt_string(x.version));
    lemma_lit_split(t, pos, "{\"name\":"@ + enc_string(x.name@), ",\"version\":"@);
    lemma_lit_split(t, pos, "{\"name\":"@, enc_string(x.name@));
    assert("}"@.len() == 1);
    match x.version {
        Some(s) => {
            assert(str_at(t, soft_o2(pos, x), s@));
        },
        None => {
            assert(lit_at(t, soft_o2(pos, x), null_text()));
        },
    }
    match x.vendor {
        Some(s) => {
            assert(str_at(t, soft_o3(pos, x), s@));
        },
        None => {
            assert(lit_at(t, soft_o3(pos, x), null_text()));
        },
    }
    match x.install_date {
        Some(ts) => {
            assert(lit_at(t, soft_o4(pos, x), enc_instant(ts)));
        },
        None => {
            assert(lit_at(t, soft_o4(pos, x), null_text()));
        },
    }
}

/// Reads one software object: exactly the text a software record with a
/// calendar-valid install instant encodes to reads back as a record that
/// encodes to that text.
#[verifier::rlimit(100)]
#[verifier::spinoff_prover]
fn parse_software(v: &Vec<char>, pos: usize) -> (r: Option<(SoftwareDto, usize)>)
    ensures
        r matches Some((s, p)) ==> pos < p <= v@.len() && ((s.install_date matches Some(t))
            ==> (s.install_date matches Some(t2) && t2.wf())),
        forall|x: SoftwareDto|
            #![trigger enc_software(x)]
            soft_at(v@, pos as int, x) ==> (r matches Some((y, p)) && enc_software(y)
                == enc_software(x) && p == pos + enc_software(x).len()),
{
    proof {
        reveal_strlit("{\"name\":");
        reveal_strlit(",\"version\":");
        reveal_strlit(",\"vendor\":");
        reveal_strlit(",\"install_date\":");
        reveal_strlit("}");
        reveal_strlit("null");
        assert("null"@ =~= null_text());
        assert forall|x: SoftwareDto|
            #![trigger enc_software(x)]
            soft_at(v@, pos as int, x) implies slices_hold_soft(v@, pos as int, x) by {
            lemma_soft_slices(v@, pos as int, x);
        }
    }
    let p1 = match at_lit(v, pos, "{\"name\":") {
        Some(p) => p,
        None => {
            return None;
        },
    };
    let (name, p2) = match parse_string(v, p1) {
        Some(x) => x,
        None => {
            return None;
        },
    };
    let p3 = match at_lit(v, p2, ",\"version\":") {
        Some(p) => p,
        None => {
            return None;
        },
    };
    let (version, p4) = match parse_opt_string(v, p3) {
        Some(x) => x,
        None => {
            return None;
        },
    };
    let p5 = match at_lit(v, p4, ",\"vendor\":") {
        Some(p) => p,
        None => {
            return None;
        },
    };
    let (vendor, p6) = match parse_opt_string(v, p5) {
        Some(x) => x,
        None => {
            return None;
        },
    };
    let p7 = match at_lit(v, p6, ",\"install_date\":") {
        Some(p) => p,
        None => {
            return None;
        },
    };
    let rn = at_lit(v, p7, "null");
    let (install_date, p8) = match rn {
        Some(p) => (None, p),
        None => match parse_instant(v, p7) {
            Some((ts, p)) => (Some(ts), p),
            None => {
                proof {
                    assert forall|x: SoftwareDto|
                        #![trigger enc_software(x)]
                        !soft_at(v@, pos as int, x) by {
                        if soft_at(v@, pos as int, x) {
                            assert(p7 == soft_o4(pos as int, x));
                            match x.install_date {
                                Some(ts) => {
                                    assert(lit_at(v@, p7 as int, enc_instant(ts)));
                                },
                                None => {},
                            }
                        }
                    }
                }
                return None;
            },
        },
    };
    proof {
        assert forall|x: SoftwareDto|
            #![trigger enc_software(x)]
            soft_at(v@, pos as int, x) implies p8 == soft_o5(pos as int, x) && enc_opt_instant(
            install_date,
        ) == enc_opt_instant(x.install_date) by {
            assert(p7 == soft_o4(pos as int, x));
            match x.install_date {
                Some(ts) => {
                    assert(lit_at(v@, p7 as int, enc_instant(ts)));
                    if rn is Some {
                        assert(v@.subrange(p7 as int, p7 + 4) == null_text());
                        assert(v@.subrange(p7 as int, p7 + 4)[0] == enc_instant(ts)[0]);
                    }
                    assert(enc_instant(ts)[0] == '"');
                },
                None => {
                    assert(lit_at(v@, p7 as int, null_text()));
                    assert(rn == Some((p7 + 4) as usize));
                },
            }
        }
    }
    let p9 = match at_lit(v, p8, "}") {
        Some(p) => p,
        None => {
            return None;
        },
    };
    Some((SoftwareDto { name, version, vendor, install_date }, p9))
}

/// Whether the text holds an industrial object at the position.
pub open spec fn ind_at(t: Seq<char>, pos: int, x: IndustrialSoftwareDto) -> bool {
    lit_at(t, pos, enc_industrial(x))
}

/// Where an industrial object's vendor value starts.
pub open spec fn ind_o1(pos: int, x: IndustrialSoftwareDto) -> int {
    pos + "{\"vendor\":"@.len()
}

/// Where the product value starts.
pub open spec fn ind_o2(pos: int, x: IndustrialSoftwareDto) -> int {
    ind_o1(pos, x) + enc_string(x.vendor@).len() + ",\"product\":"@.len()
}

/// Where the version value starts.
pub open spec fn ind_o3(pos: int, x: IndustrialSoftwareDto) -> int {
    ind_o2(pos, x) + enc_string(x.product@).len() + ",\"version\":"@.len()
}

/// Where the install-path value starts.
pub open spec fn ind_o4(pos: int, x: IndustrialSoftwareDto) -> int {
    ind_o3(pos, x) + enc_opt_string(x.version).len() + ",\"install_path\":"@.len()
}

/// Where the object's closing brace sits.
pub open spec fn ind_o5(pos: int, x: IndustrialSoftwareDto) -> int {
    ind_o4(pos, x) + enc_opt_string(x.install_path).len()
}

/// All of an industrial object's pieces, in place.
spec fn slices_hold_ind(t: Seq<char>, pos: int, x: IndustrialSoftwareDto) -> bool {
    &&& lit_at(t, pos, "{\"vendor\":"@)
    &&& str_at(t, ind_o1(pos, x), x.vendor@)
    &&& lit_at(t, ind_o1(pos, x) + enc_string(x.vendor@).len(), ",\"product\":"@)
    &&& str_at(t, ind_o2(pos, x), x.product@)
    &&& lit_at(t, ind_o2(pos, x) + enc_string(x.product@).len(), ",\"version\":"@)
    &&& (x.version matches Some(s) ==> str_at(t, ind_o3(pos, x), s@))
    &&& (x.version is None ==> lit_at(t, ind_o3(pos, x), null_text()))
    &&& lit_at(t, ind_o3(pos, x) + enc_opt_string(x.version).len(), ",\"install_path\":"@)
    &&& (x.install_path matches Some(s) ==> str_at(t, ind_o4(pos, x), s@))
    &&& (x.install_path is None ==> lit_at(t, ind_o4(pos, x), null_text()))
    &&& lit_at(t, ind_o5(pos, x), "}"@)
    &&& pos + enc_industrial(x).len() == ind_o5(pos, x) + 1
}

/// Where each piece of an industrial object sits in the text that holds it.
proof fn lemma_ind_slices(t: Seq<char>, pos: int, x: IndustrialSoftwareDto)
    requires
        ind_at(t, pos, x),
    ensures
        slices_hold_ind(t, pos, x),
{
    reveal_strlit("}");
    reveal_strlit("null");
    assert("null"@ =~= null_text());
    lemma_lit_split(t, pos, "{\"vendor\":"@ + enc_string(x.vendor@) + ",\"product\":"@ + enc_string(x.product@) + ",\"version\":"@ + enc_opt_string(x.version) + ",\"install_path\":"@ + enc_opt_string(x.install_path), "}"@);
    lemma_lit_split(t, pos, "{\"vendor\":"@ + enc_string(x.vendor@) + ",\"product\":"@ + enc_string(x.product@) + ",\"version\":"@ + enc_opt_string(x.version) + ",\"install_path\":"@, enc_opt_string(x.install_path));
    lemma_lit_split(t, pos, "{\"vendor\":"@ + enc_string(x.vendor@) + ",\"product\":"@ + enc_string(x.product@) + ",\"version\":"@ + enc_opt_string(x.version), ",\"install_path\":"@);
    lemma_lit_split(t, pos, "{\"vendor\":"@ + enc_string(x.vendor@) + ",\"product\":"@ + enc_string(x.product@) + ",\"version\":"@, enc_opt_string(x.version));
    lemma_lit_split(t, pos, "{\"vendor\":"@ + enc_string(x.vendor@) + ",\"product\":"@ + enc_string(x.product@), ",\"version\":"@);
    lemma_lit_split(t, pos, "{\"vendor\":"@ + enc_string(x.vendor@) + ",\"product\":"@, enc_string(x.product@));
    lemma_lit_split(t, pos, "{\"vendor\":"@ + enc_string(x.vendor@), ",\"product\":"@);
    lemma_lit_split(t, pos, "{\"vendor\":"@, enc_string(x.vendor@));
    assert("}"@.len() == 1);
    match x.version {
        Some(s) => {
            assert(str_at(t, ind_o3(pos, x), s@));
        },
        None => {
            assert(lit_at(t, ind_o3(pos, x), null_text()));
        },
    }
    match x.install_path {
        Some(s) => {
            assert(str_at(t, ind_o4(pos, x), s@));
        },
        None => {
            assert(lit_at(t, ind_o4(pos, x), null_text()));
        },
    }
}

/// Reads one industrial object: exactly the text an industrial record
/// encodes to reads back as a record that encodes to that text.
#[verifier::rlimit(100)]
#[verifier::spinoff_prover]
fn parse_industrial(v: &Vec<char>, pos: usize) -> (r: Option<(IndustrialSoftwareDto, usize)>)
    ensures
        r matches Some((_, p)) ==> pos < p <= v@.len(),
        forall|x: IndustrialSoftwareDto|
            #![trigger enc_industrial(x)]
            ind_at(v@, pos as int, x) ==> (r matches Some((y, p)) && enc_industrial(y)
                == enc_industrial(x) && p == pos + enc_industrial(x).len()),
{
    proof {
        reveal_strlit("{\"vendor\":");
        reveal_strlit(",\"product\":");
        reveal_strlit(",\"version\":");
        reveal_strlit(",\"install_path\":");
        reveal_strlit("}");
        assert forall|x: IndustrialSoftwareDto|
            #![trigger enc_industrial(x)]
            ind_at(v@, pos as int, x) implies slices_hold_ind(v@, pos as int, x) by {
            lemma_ind_slices(v@, pos as int, x);
        }
    }
    let p1 = match at_lit(v, pos, "{\"vendor\":") {
        Some(p) => p,
        None => {
            return None;
        },
    };
    let (vendor, p2) = match parse_string(v, p1) {
        Some(x) => x,
        None => {
            return None;
        },
    };
    let p3 = match at_lit(v, p2, ",\"product\":") {
        Some(p) => p,
        None => {
            return None;
        },
    };
    let (product, p4) = match parse_string(v, p3) {
        Some(x) => x,
        None => {
            return None;
        },
    };
    let p5 = match at_lit(v, p4, ",\"version\":") {
        Some(p) => p,
        None => {
            return None;
        },
    };
    let (version, p6) = match parse_opt_string(v, p5) {
        Some(x) => x,
        None => {
            return None;
        },
    };
    let p7 = match at_lit(v, p6, ",\"install_path\":") {
        Some(p) => p,
        None => {
            return None;
        },
    };
    let (install_path, p8) = match parse_opt_string(v, p7) {
        Some(x) => x,
        None => {
            return None;
        },
    };
    let p9 = match at_lit(v, p8, "}") {
        Some(p) => p,
        None => {
            return None;
        },
    };
    Some((IndustrialSoftwareDto { vendor, product, version, install_path }, p9))
}

/// Whether the text holds the comma-separated interface list at the
/// position, with the closing bracket after it.
pub open spec fn iface_list_at(t: Seq<char>, pos: int, its: Seq<NetworkInterfaceDto>) -> bool {
    &&& lit_at(t, pos, enc_ifaces(its))
    &&& pos + enc_ifaces(its).len() < t.len()
    &&& t[pos + enc_ifaces(its).len()] == ']'
}

/// Splitting the list text after one more element adds the separating
/// comma and that element's text.
proof fn lemma_ifaces_step(its: Seq<NetworkInterfaceDto>, k: int)
    requires
        0 <= k < its.len(),
    ensures
        enc_ifaces(its.subrange(0, k + 1)) == enc_ifaces(its.subrange(0, k)) + (if k > 0 {
            seq![',']
        } else {
            Seq::<char>::empty()
        }) + enc_iface(its[k]),
{
    let a = its.subrange(0, k + 1);
    assert(a.drop_last() =~= its.subrange(0, k));
    assert(a.last() == its[k]);
    if k == 0 {
        assert(a.len() == 1);
        assert(enc_ifaces(a) == enc_iface(its[0]));
        assert(enc_ifaces(its.subrange(0, 0)) =~= Seq::<char>::empty());
        assert(enc_ifaces(its.subrange(0, 1)) =~= enc_ifaces(its.subrange(0, 0))
            + Seq::<char>::empty() + enc_iface(its[0]));
    }
}

/// Where one element of the interface list sits in the text, and what
/// follows it.
proof fn lemma_ifaces_layout(t: Seq<char>, pos: int, its: Seq<NetworkInterfaceDto>, k: int)
    requires
        iface_list_at(t, pos, its),
        0 <= k < its.len(),
    ensures
        lit_at(
            t,
            pos + enc_ifaces(its.subrange(0, k)).len() + (if k > 0 {
                1int
            } else {
                0int
            }),
            enc_iface(its[k]),
        ),
        enc_ifaces(its.subrange(0, k + 1)).len() == enc_ifaces(its.subrange(0, k)).len() + (if k
            > 0 {
            1int
        } else {
            0int
        }) + enc_iface(its[k]).len(),
        k + 1 < its.len() ==> t[pos + enc_ifaces(its.subrange(0, k + 1)).len()] == ',',
        k + 1 == its.len() ==> t[pos + enc_ifaces(its.subrange(0, k + 1)).len()] == ']',
{
    lemma_ifaces_step(its, k);
    lemma_ifaces_prefix_within(its, k + 1);
    let sep: int = if k > 0 {
        1
    } else {
        0
    };
    let start = pos + enc_ifaces(its.subrange(0, k)).len() + sep;
    let fin = start + enc_iface(its[k]).len();
    assert forall|j: int|
        0 <= j < enc_iface(its[k]).len() implies t.subrange(start, fin)[j] == enc_iface(
        its[k],
    )[j] by {
        assert(t.subrange(pos, pos + enc_ifaces(its).len())[start - pos + j] == enc_ifaces(
            its,
        )[start - pos + j]);
        lemma_ifaces_index(its, k, start - pos + j);
    }
    assert(t.subrange(start, fin) =~= enc_iface(its[k]));
    if k + 1 < its.len() {
        lemma_ifaces_index_sep(its, k + 1);
        assert(t.subrange(pos, pos + enc_ifaces(its).len())[fin - pos] == enc_ifaces(its)[fin
            - pos]);
    } else {
        assert(its.subrange(0, k + 1) =~= its);
    }
}

/// The leading elements' text is a prefix of the whole list text.
proof fn lemma_ifaces_prefix_within(its: Seq<NetworkInterfaceDto>, j: int)
    requires
        0 <= j <= its.len(),
    ensures
        enc_ifaces(its.subrange(0, j)).len() + (if j > 0 && j < its.len() {
            1int
        } else {
            0int
        }) <= enc_ifaces(its).len(),
        forall|i: int|
            0 <= i < enc_ifaces(its.subrange(0, j)).len() ==> enc_ifaces(its)[i]
                == #[trigger] enc_ifaces(its.subrange(0, j))[i],
    decreases its.len() - j,
{
    if j == its.len() {
        assert(its.subrange(0, j) =~= its);
    } else {
        lemma_ifaces_step(its, j);
        lemma_ifaces_prefix_within(its, j + 1);
        assert(enc_iface(its[j]).len() >= 1) by {
            reveal_strlit("{\"name\":");
            assert(enc_iface(its[j])[0] == "{\"name\":"@[0]);
        }
        assert(forall|i: int|
            0 <= i < enc_ifaces(its.subrange(0, j)).len() ==> enc_ifaces(its.subrange(0, j + 1))[i]
                == #[trigger] enc_ifaces(its.subrange(0, j))[i]);
    }
}

/// The character of the whole list text within one element's span.
proof fn lemma_ifaces_index(its: Seq<NetworkInterfaceDto>, k: int, i: int)
    requires
        0 <= k < its.len(),
        enc_ifaces(its.subrange(0, k)).len() + (if k > 0 {
            1int
        } else {
            0int
        }) <= i < enc_ifaces(its.subrange(0, k + 1)).len(),
    ensures
        enc_ifaces(its)[i] == enc_iface(its[k])[i - enc_ifaces(its.subrange(0, k)).len() - (if k
            > 0 {
            1int
        } else {
            0int
        })],
{
    lemma_ifaces_step(its, k);
    lemma_ifaces_prefix_within(its, k + 1);
    assert(enc_ifaces(its)[i] == enc_ifaces(its.subrange(0, k + 1))[i]);
}

/// The separating comma before a later element, in the whole list text.
proof fn lemma_ifaces_index_sep(its: Seq<NetworkInterfaceDto>, k: int)
    requires
        0 < k < its.len(),
    ensures
        enc_ifaces(its)[enc_ifaces(its.subrange(0, k)).len() as int] == ',',
{
    lemma_ifaces_step(its, k);
    lemma_ifaces_prefix_within(its, k + 1);
    assert(enc_ifaces(its)[enc_ifaces(its.subrange(0, k)).len() as int] == enc_ifaces(
        its.subrange(0, k + 1),
    )[enc_ifaces(its.subrange(0, k)).len() as int]);
}

/// Reads the interface list up to, not including, the closing bracket:
/// exactly the text a list encodes to reads back as a list that encodes
/// to that text.
#[verifier::rlimit(100)]
#[verifier::spinoff_prover]
fn parse_ifaces(v: &Vec<char>, pos: usize) -> (r: Option<(Vec<NetworkInterfaceDto>, usize)>)
    ensures
        r matches Some((_, p)) ==> pos <= p <= v@.len(),
        forall|its: Seq<NetworkInterfaceDto>|
            #![trigger enc_ifaces(its)]
            iface_list_at(v@, pos as int, its) ==> (r matches Some((out, p)) && enc_ifaces(out@)
                == enc_ifaces(its) && p == pos + enc_ifaces(its).len()),
{
    let mut out: Vec<NetworkInterfaceDto> = Vec::new();
    proof {
        assert forall|its: Seq<NetworkInterfaceDto>|
            #![trigger enc_ifaces(its)]
            iface_list_at(v@, pos as int, its) implies pos < v@.len() && (its.len() == 0
            ==> v@[pos as int] == ']') && (its.len() > 0 ==> v@[pos as int] == '{') by {
            if its.len() == 0 {
                assert(enc_ifaces(its).len() == 0);
            } else {
                lemma_ifaces_layout(v@, pos as int, its, 0);
                assert(its.subrange(0, 0) =~= Seq::<NetworkInterfaceDto>::empty());
                assert(v@.subrange(pos as int, pos + enc_iface(its[0]).len())[0] == enc_iface(
                    its[0],
                )[0]);
                reveal_strlit("{\"name\":");
                assert(enc_iface(its[0])[0] == "{\"name\":"@[0]);
            }
        }
    }
    if pos >= v.len() {
        return None;
    }
    if v[pos] == ']' {
        proof {
            assert forall|its: Seq<NetworkInterfaceDto>|
                #![trigger enc_ifaces(its)]
                iface_list_at(v@, pos as int, its) implies its.len() == 0 && enc_ifaces(its).len()
                == 0 && enc_ifaces(out@) == enc_ifaces(its) by {
                assert(enc_ifaces(out@) =~= enc_ifaces(its));
            }
        }
        return Some((out, pos));
    }
    let mut p = pos;
    loop
        invariant
            pos <= p <= v@.len(),
            forall|its: Seq<NetworkInterfaceDto>|
                #![trigger enc_ifaces(its)]
                iface_list_at(v@, pos as int, its) ==> out@.len() < its.len() && enc_ifaces(out@)
                    == enc_ifaces(its.subrange(0, out@.len() as int)) && p == pos + enc_ifaces(
                    its.subrange(0, out@.len() as int),
                ).len() + (if out@.len() > 0 {
                    1int
                } else {
                    0int
                }),
        decreases v@.len() - p,
    {
        let ghost k = out@.len() as int;
        proof {
            assert forall|its: Seq<NetworkInterfaceDto>|
                #![trigger enc_ifaces(its)]
                iface_list_at(v@, pos as int, its) implies iface_at(v@, p as int, its[k]) by {
                lemma_ifaces_layout(v@, pos as int, its, k);
            }
        }
        let (item, p2) = match parse_iface(v, p) {
            Some(x) => x,
            None => {
                return None;
            },
        };
        let ghost old_out = out@;
        out.push(item);
        proof {
            assert forall|its: Seq<NetworkInterfaceDto>|
                #![trigger enc_ifaces(its)]
                iface_list_at(v@, pos as int, its) implies enc_ifaces(out@) == enc_ifaces(
                its.subrange(0, k + 1),
            ) && p2 == pos + enc_ifaces(its.subrange(0, k + 1)).len() && (k + 1 < its.len()
                ==> v@[p2 as int] == ',') && (k + 1 == its.len() ==> v@[p2 as int] == ']')
                && p2 < v@.len() by {
                lemma_ifaces_layout(v@, pos as int, its, k);
                assert(enc_iface(item) == enc_iface(its[k]));
                assert(out@.drop_last() =~= old_out);
                assert(out@.last() == item);
                assert(enc_ifaces(old_out) == enc_ifaces(its.subrange(0, k)));
                if k == 0 {
                    assert(enc_ifaces(out@) == enc_iface(item));
                    assert(enc_ifaces(its.subrange(0, 1)) == enc_ifaces(its.subrange(0, 0))
                        + Seq::<char>::empty() + enc_iface(its[0])) by {
                        lemma_ifaces_step(its, 0);
                    }
                    assert(enc_ifaces(its.subrange(0, 0)) =~= Seq::<char>::empty());
                    assert(enc_ifaces(its.subrange(0, 1)) =~= enc_iface(its[0]));
                } else {
                    assert(enc_ifaces(out@) == enc_ifaces(old_out) + seq![','] + enc_iface(item));
                    lemma_ifaces_step(its, k);
                }
                if k + 1 < its.len() {
                    lemma_ifaces_prefix_within(its, k + 1);
                }
            }
        }
        p = p2;
        if p < v.len() && v[p] == ',' {
            proof {
                assert forall|its: Seq<NetworkInterfaceDto>|
                    #![trigger enc_ifaces(its)]
                    iface_list_at(v@, pos as int, its) implies k + 1 < its.len() by {
                    if k + 1 == its.len() {
                        assert(v@[p as int] == ']');
                    }
                }
            }
            p = p + 1;
        } else {
            proof {
                assert forall|its: Seq<NetworkInterfaceDto>|
                    #![trigger enc_ifaces(its)]
                    iface_list_at(v@, pos as int, its) implies k + 1 == its.len() && enc_ifaces(
                    out@,
                ) == enc_ifaces(its) && p == pos + enc_ifaces(its).len() by {
                    if k + 1 < its.len() {
                        assert(v@[p as int] == ',');
                    }
                    assert(its.subrange(0, k + 1) =~= its);
                }
            }
            return Some((out, p));
        }
    }
}

/// Whether the text holds the comma-separated SoftwareDto list at the
/// position, with the closing bracket after it.
pub open spec fn soft_list_at(t: Seq<char>, pos: int, its: Seq<SoftwareDto>) -> bool {
    &&& lit_at(t, pos, enc_softwares(its))
    &&& pos + enc_softwares(its).len() < t.len()
    &&& t[pos + enc_softwares(its).len()] == ']'
    &&& forall|i: int|
        0 <= i < its.len() ==> ((#[trigger] its[i].install_date) matches Some(ts) ==> ts.wf())
}

/// Splitting the list text after one more element adds the separating
/// comma and that element's text.
proof fn lemma_softwares_step(its: Seq<SoftwareDto>, k: int)
    requires
        0 <= k < its.len(),
    ensures
        enc_softwares(its.subrange(0, k + 1)) == enc_softwares(its.subrange(0, k)) + (if k > 0 {
            seq![',']
        } else {
            Seq::<char>::empty()
        }) + enc_software(its[k]),
{
    let a = its.subrange(0, k + 1);
    assert(a.drop_last() =~= its.subrange(0, k));
    assert(a.last() == its[k]);
    if k == 0 {
        assert(a.len() == 1);
        assert(enc_softwares(a) == enc_software(its[0]));
        assert(enc_softwares(its.subrange(0, 0)) =~= Seq::<char>::empty());
        assert(enc_softwares(its.subrange(0, 1)) =~= enc_softwares(its.subrange(0, 0))
            + Seq::<char>::empty() + enc_software(its[0]));
    }
}

/// Where one element of the SoftwareDto list sits in the text, and what
/// follows it.
proof fn lemma_softwares_layout(t: Seq<char>, pos: int, its: Seq<SoftwareDto>, k: int)
    requires
        soft_list_at(t, pos, its),
        0 <= k < its.len(),
    ensures
        lit_at(
            t,
            pos + enc_softwares(its.subrange(0, k)).len() + (if k > 0 {
                1int
            } else {
                0int
            }),
            enc_software(its[k]),
        ),
        enc_softwares(its.subrange(0, k + 1)).len() == enc_softwares(its.subrange(0, k)).len() + (if k
            > 0 {
            1int
        } else {
            0int
        }) + enc_software(its[k]).len(),
        k + 1 < its.len() ==> t[pos + enc_softwares(its.subrange(0, k + 1)).len()] == ',',
        k + 1 == its.len() ==> t[pos + enc_softwares(its.subrange(0, k + 1)).len()] == ']',
{
    lemma_softwares_step(its, k);
    lemma_softwares_prefix_within(its, k + 1);
    let sep: int = if k > 0 {
        1
    } else {
        0
    };
    let start = pos + enc_softwares(its.subrange(0, k)).len() + sep;
    let fin = start + enc_software(its[k]).len();
    assert forall|j: int|
        0 <= j < enc_software(its[k]).len() implies t.subrange(start, fin)[j] == enc_software(
        its[k],
    )[j] by {
        assert(t.subrange(pos, pos + enc_softwares(its).len())[start - pos + j] == enc_softwares(
            its,
        )[start - pos + j]);
        lemma_softwares_index(its, k, start - pos + j);
    }
    assert(t.subrange(start, fin) =~= enc_software(its[k]));
    if k + 1 < its.len() {
        lemma_softwares_index_sep(its, k + 1);
        assert(t.subrange(pos, pos + enc_softwares(its).len())[fin - pos] == enc_softwares(its)[fin
            - pos]);
    } else {
        assert(its.subrange(0, k + 1) =~= its);
    }
}

/// The leading elements' text is a prefix of the whole list text.
proof fn lemma_softwares_prefix_within(its: Seq<SoftwareDto>, j: int)
    requires
        0 <= j <= its.len(),
    ensures
        enc_softwares(its.subrange(0, j)).len() + (if j > 0 && j < its.len() {
            1int
        } else {
            0int
        }) <= enc_softwares(its).len(),
        forall|i: int|
            0 <= i < enc_softwares(its.subrange(0, j)).len() ==> enc_softwares(its)[i]
                == #[trigger] enc_softwares(its.subrange(0, j))[i],
    decreases its.len() - j,
{
    if j == its.len() {
        assert(its.subrange(0, j) =~= its);
    } else {
        lemma_softwares_step(its, j);
        lemma_softwares_prefix_within(its, j + 1);
        assert(enc_software(its[j]).len() >= 1) by {
            reveal_strlit("{\"name\":");
            assert(enc_software(its[j])[0] == "{\"name\":"@[0]);
        }
        assert(forall|i: int|
            0 <= i < enc_softwares(its.subrange(0, j)).len() ==> enc_softwares(its.subrange(0, j + 1))[i]
                == #[trigger] enc_softwares(its.subrange(0, j))[i]);
    }
}

/// The character of the whole list text within one element's span.
proof fn lemma_softwares_index(its: Seq<SoftwareDto>, k: int, i: int)
    requires
        0 <= k < its.len(),
        enc_softwares(its.subrange(0, k)).len() + (if k > 0 {
            1int
        } else {
            0int
        }) <= i < enc_softwares(its.subrange(0, k + 1)).len(),
    ensures
        enc_softwares(its)[i] == enc_software(its[k])[i - enc_softwares(its.subrange(0, k)).len() - (if k
            > 0 {
            1int
        } else {
            0int
        })],
{
    lemma_softwares_step(its, k);
    lemma_softwares_prefix_within(its, k + 1);
    assert(enc_softwares(its)[i] == enc_softwares(its.subrange(0, k + 1))[i]);
}

/// The separating comma before a later element, in the whole list text.
proof fn lemma_softwares_index_sep(its: Seq<SoftwareDto>, k: int)
    requires
        0 < k < its.len(),
    ensures
        enc_softwares(its)[enc_softwares(its.subrange(0, k)).len() as int] == ',',
{
    lemma_softwares_step(its, k);
    lemma_softwares_prefix_within(its, k + 1);
    assert(enc_softwares(its)[enc_softwares(its.subrange(0, k)).len() as int] == enc_softwares(
        its.subrange(0, k + 1),
    )[enc_softwares(its.subrange(0, k)).len() as int]);
}

/// Reads the SoftwareDto list up to, not including, the closing bracket:
/// exactly the text a list encodes to reads back as a list that encodes
/// to that text.
#[verifier::rlimit(100)]
#[verifier::spinoff_prover]
fn parse_softwares(v: &Vec<char>, pos: usize) -> (r: Option<(Vec<SoftwareDto>, usize)>)
    ensures
        r matches Some((items, p)) ==> pos <= p <= v@.len() && forall|i: int|
            0 <= i < items@.len() ==> ((#[trigger] items@[i].install_date) matches Some(t2)
                ==> t2.wf()),
        forall|its: Seq<SoftwareDto>|
            #![trigger enc_softwares(its)]
            soft_list_at(v@, pos as int, its) ==> (r matches Some((out, p)) && enc_softwares(out@)
                == enc_softwares(its) && p == pos + enc_softwares(its).len()),
{
    let mut out: Vec<SoftwareDto> = Vec::new();
    proof {
        assert forall|its: Seq<SoftwareDto>|
            #![trigger enc_softwares(its)]
            soft_list_at(v@, pos as int, its) implies pos < v@.len() && (its.len() == 0
            ==> v@[pos as int] == ']') && (its.len() > 0 ==> v@[pos as int] == '{') by {
            if its.len() == 0 {
                assert(enc_softwares(its).len() == 0);
            } else {
                lemma_softwares_layout(v@, pos as int, its, 0);
                assert(its.subrange(0, 0) =~= Seq::<SoftwareDto>::empty());
                assert(v@.subrange(pos as int, pos + enc_software(its[0]).len())[0] == enc_software(
                    its[0],
                )[0]);
                reveal_strlit("{\"name\":");
                assert(enc_software(its[0])[0] == "{\"name\":"@[0]);
            }
        }
    }
    if pos >= v.len() {
        return None;
    }
    if v[pos] == ']' {
        proof {
            assert forall|its: Seq<SoftwareDto>|
                #![trigger enc_softwares(its)]
                soft_list_at(v@, pos as int, its) implies its.len() == 0 && enc_softwares(its).len()
                == 0 && enc_softwares(out@) == enc_softwares(its) by {
                assert(enc_softwares(out@) =~= enc_softwares(its));
            }
        }
        return Some((out, pos));
    }
    let mut p = pos;
    loop
        invariant
            pos <= p <= v@.len(),
            forall|i: int|
                0 <= i < out@.len() ==> ((#[trigger] out@[i].install_date) matches Some(t2)
                    ==> t2.wf()),
            forall|its: Seq<SoftwareDto>|
                #![trigger enc_softwares(its)]
                soft_list_at(v@, pos as int, its) ==> out@.len() < its.len() && enc_softwares(out@)
                    == enc_softwares(its.subrange(0, out@.len() as int)) && p == pos + enc_softwares(
                    its.subrange(0, out@.len() as int),
                ).len() + (if out@.len() > 0 {
                    1int
                } else {
                    0int
                }),
        decreases v@.len() - p,
    {
        let ghost k = out@.len() as int;
        proof {
            assert forall|its: Seq<SoftwareDto>|
                #![trigger enc_softwares(its)]
                soft_list_at(v@, pos as int, its) implies soft_at(v@, p as int, its[k]) by {
                lemma_softwares_layout(v@, pos as int, its, k);
                assert((its[k].install_date matches Some(ts) ==> ts.wf()));
            }
        }
        let (item, p2) = match parse_software(v, p) {
            Some(x) => x,
            None => {
                return None;
            },
        };
        let ghost old_out = out@;
        out.push(item);
        proof {
            assert forall|its: Seq<SoftwareDto>|
                #![trigger enc_softwares(its)]
                soft_list_at(v@, pos as int, its) implies enc_softwares(out@) == enc_softwares(
                its.subrange(0, k + 1),
            ) && p2 == pos + enc_softwares(its.subrange(0, k + 1)).len() && (k + 1 < its.len()
                ==> v@[p2 as int] == ',') && (k + 1 == its.len() ==> v@[p2 as int] == ']')
                && p2 < v@.len() by {
                lemma_softwares_layout(v@, pos as int, its, k);
                assert(enc_software(item) == enc_software(its[k]));
                assert(out@.drop_last() =~= old_out);
                assert(out@.last() == item);
                assert(enc_softwares(old_out) == enc_softwares(its.subrange(0, k)));
                if k == 0 {
                    assert(enc_softwares(out@) == enc_software(item));
                    assert(enc_softwares(its.subrange(0, 1)) == enc_softwares(its.subrange(0, 0))
                        + Seq::<char>::empty() + enc_software(its[0])) by {
                        lemma_softwares_step(its, 0);
                    }
                    assert(enc_softwares(its.subrange(0, 0)) =~= Seq::<char>::empty());
                    assert(enc_softwares(its.subrange(0, 1)) =~= enc_software(its[0]));
                } else {
                    assert(enc_softwares(out@) == enc_softwares(old_out) + seq![','] + enc_software(item));
                    lemma_softwares_step(its, k);
                }
                if k + 1 < its.len() {
                    lemma_softwares_prefix_within(its, k + 1);
                }
            }
        }
        p = p2;
        if p < v.len() && v[p] == ',' {
            proof {
                assert forall|its: Seq<SoftwareDto>|
                    #![trigger enc_softwares(its)]
                    soft_list_at(v@, pos as int, its) implies k + 1 < its.len() by {
                    if k + 1 == its.len() {
                        assert(v@[p as int] == ']');
                    }
                }
            }
            p = p + 1;
        } else {
            proof {
                assert forall|its: Seq<SoftwareDto>|
                    #![trigger enc_softwares(its)]
                    soft_list_at(v@, pos as int, its) implies k + 1 == its.len() && enc_softwares(
                    out@,
                ) == enc_softwares(its) && p == pos + enc_softwares(its).len() by {
                    if k + 1 < its.len() {
                        assert(v@[p as int] == ',');
                    }
                    assert(its.subrange(0, k + 1) =~= its);
                }
            }
            return Some((out, p));
        }
    }
}

/// Whether the text holds the comma-separated IndustrialSoftwareDto list at the
/// position, with the closing bracket after it.
pub open spec fn ind_list_at(t: Seq<char>, pos: int, its: Seq<IndustrialSoftwareDto>) -> bool {
    &&& lit_at(t, pos, enc_industrials(its))
    &&& pos + enc_industrials(its).len() < t.len()
    &&& t[pos + enc_industrials(its).len()] == ']'
}

/// Splitting the list text after one more element adds the separating
/// comma and that element's text.
proof fn lemma_industrials_step(its: Seq<IndustrialSoftwareDto>, k: int)
    requires
        0 <= k < its.len(),
    ensures
        enc_industrials(its.subrange(0, k + 1)) == enc_industrials(its.subrange(0, k)) + (if k > 0 {
            seq![',']
        } else {
            Seq::<char>::empty()
        }) + enc_industrial(its[k]),
{
    let a = its.subrange(0, k + 1);
    assert(a.drop_last() =~= its.subrange(0, k));
    assert(a.last() == its[k]);
    if k == 0 {
        assert(a.len() == 1);
        assert(enc_industrials(a) == enc_industrial(its[0]));
        assert(enc_industrials(its.subrange(0, 0)) =~= Seq::<char>::empty());
        assert(enc_industrials(its.subrange(0, 1)) =~= enc_industrials(its.subrange(0, 0))
            + Seq::<char>::empty() + enc_industrial(its[0]));
    }
}

/// Where one element of the IndustrialSoftwareDto list sits in the text, and what
/// follows it.
proof fn lemma_industrials_layout(t: Seq<char>, pos: int, its: Seq<IndustrialSoftwareDto>, k: int)
    requires
        ind_list_at(t, pos, its),
        0 <= k < its.len(),
    ensures
        lit_at(
            t,
            pos + enc_industrials(its.subrange(0, k)).len() + (if k > 0 {
                1int
            } else {
                0int
            }),
            enc_industrial(its[k]),
        ),
        enc_industrials(its.subrange(0, k + 1)).len() == enc_industrials(its.subrange(0, k)).len() + (if k
            > 0 {
            1int
        } else {
            0int
        }) + enc_industrial(its[k]).len(),
        k + 1 < its.len() ==> t[pos + enc_industrials(its.subrange(0, k + 1)).len()] == ',',
        k + 1 == its.len() ==> t[pos + enc_industrials(its.subrange(0, k + 1)).len()] == ']',
{
    lemma_industrials_step(its, k);
    lemma_industrials_prefix_within(its, k + 1);
    let sep: int = if k > 0 {
        1
    } else {
        0
    };
    let start = pos + enc_industrials(its.subrange(0, k)).len() + sep;
    let fin = start + enc_industrial(its[k]).len();
    assert forall|j: int|
        0 <= j < enc_industrial(its[k]).len() implies t.subrange(start, fin)[j] == enc_industrial(
        its[k],
    )[j] by {
        assert(t.subrange(pos, pos + enc_industrials(its).len())[start - pos + j] == enc_industrials(
            its,
        )[start - pos + j]);
        lemma_industrials_index(its, k, start - pos + j);
    }
    assert(t.subrange(start, fin) =~= enc_industrial(its[k]));
    if k + 1 < its.len() {
        lemma_industrials_index_sep(its, k + 1);
        assert(t.subrange(pos, pos + enc_industrials(its).len())[fin - pos] == enc_industrials(its)[fin
            - pos]);
    } else {
        assert(its.subrange(0, k + 1) =~= its);
    }
}

/// The leading elements' text is a prefix of the whole list text.
proof fn lemma_industrials_prefix_within(its: Seq<IndustrialSoftwareDto>, j: int)
    requires
        0 <= j <= its.len(),
    ensures
        enc_industrials(its.subrange(0, j)).len() + (if j > 0 && j < its.len() {
            1int
        } else {
            0int
        }) <= enc_industrials(its).len(),
        forall|i: int|
            0 <= i < enc_industrials(its.subrange(0, j)).len() ==> enc_industrials(its)[i]
                == #[trigger] enc_industrials(its.subrange(0, j))[i],
    decreases its.len() - j,
{
    if j == its.len() {
        assert(its.subrange(0, j) =~= its);
    } else {
        lemma_industrials_step(its, j);
        lemma_industrials_prefix_within(its, j + 1);
        assert(enc_industrial(its[j]).len() >= 1) by {
            reveal_strlit("{\"vendor\":");
            assert(enc_industrial(its[j])[0] == "{\"vendor\":"@[0]);
        }
        assert(forall|i: int|
            0 <= i < enc_industrials(its.subrange(0, j)).len() ==> enc_industrials(its.subrange(0, j + 1))[i]
                == #[trigger] enc_industrials(its.subrange(0, j))[i]);
    }
}

/// The character of the whole list text within one element's span.
proof fn lemma_industrials_index(its: Seq<IndustrialSoftwareDto>, k: int, i: int)
    requires
        0 <= k < its.len(),
        enc_industrials(its.subrange(0, k)).len() + (if k > 0 {
            1int
        } else {
            0int
        }) <= i < enc_industrials(its.subrange(0, k + 1)).len(),
    ensures
        enc_industrials(its)[i] == enc_industrial(its[k])[i - enc_industrials(its.subrange(0, k)).len() - (if k
            > 0 {
            1int
        } else {
            0int
        })],
{
    lemma_industrials_step(its, k);
    lemma_industrials_prefix_within(its, k + 1);
    assert(enc_industrials(its)[i] == enc_industrials(its.subrange(0, k + 1))[i]);
}

/// The separating comma before a later element, in the whole list text.
proof fn lemma_industrials_index_sep(its: Seq<IndustrialSoftwareDto>, k: int)
    requires
        0 < k < its.len(),
    ensures
        enc_industrials(its)[enc_industrials(its.subrange(0, k)).len() as int] == ',',
{
    lemma_industrials_step(its, k);
    lemma_industrials_prefix_within(its, k + 1);
    assert(enc_industrials(its)[enc_industrials(its.subrange(0, k)).len() as int] == enc_industrials(
        its.subrange(0, k + 1),
    )[enc_industrials(its.subrange(0, k)).len() as int]);
}

/// Reads the IndustrialSoftwareDto list up to, not including, the closing bracket:
/// exactly the text a list encodes to reads back as a list that encodes
/// to that text.
#[verifier::rlimit(100)]
#[verifier::spinoff_prover]
fn parse_industrials(v: &Vec<char>, pos: usize) -> (r: Option<(Vec<IndustrialSoftwareDto>, usize)>)
    ensures
        r matches Some((_, p)) ==> pos <= p <= v@.len(),
        forall|its: Seq<IndustrialSoftwareDto>|
            #![trigger enc_industrials(its)]
            ind_list_at(v@, pos as int, its) ==> (r matches Some((out, p)) && enc_industrials(out@)
                == enc_industrials(its) && p == pos + enc_industrials(its).len()),
{
    let mut out: Vec<IndustrialSoftwareDto> = Vec::new();
    proof {
        assert forall|its: Seq<IndustrialSoftwareDto>|
            #![trigger enc_industrials(its)]
            ind_list_at(v@, pos as int, its) implies pos < v@.len() && (its.len() == 0
            ==> v@[pos as int] == ']') && (its.len() > 0 ==> v@[pos as int] == '{') by {
            if its.len() == 0 {
                assert(enc_industrials(its).len() == 0);
            } else {
                lemma_industrials_layout(v@, pos as int, its, 0);
                assert(its.subrange(0, 0) =~= Seq::<IndustrialSoftwareDto>::empty());
                assert(v@.subrange(pos as int, pos + enc_industrial(its[0]).len())[0] == enc_industrial(
                    its[0],
                )[0]);
                reveal_strlit("{\"vendor\":");
                assert(enc_industrial(its[0])[0] == "{\"vendor\":"@[0]);
            }
        }
    }
    if pos >= v.len() {
        return None;
    }
    if v[pos] == ']' {
        proof {
            assert forall|its: Seq<IndustrialSoftwareDto>|
                #![trigger enc_industrials(its)]
                ind_list_at(v@, pos as int, its) implies its.len() == 0 && enc_industrials(its).len()
                == 0 && enc_industrials(out@) == enc_industrials(its) by {
                assert(enc_industrials(out@) =~= enc_industrials(its));
            }
        }
        return Some((out, pos));
    }
    let mut p = pos;
    loop
        invariant
            pos <= p <= v@.len(),
            forall|its: Seq<IndustrialSoftwareDto>|
                #![trigger enc_industrials(its)]
                ind_list_at(v@, pos as int, its) ==> out@.len() < its.len() && enc_industrials(out@)
                    == enc_industrials(its.subrange(0, out@.len() as int)) && p == pos + enc_industrials(
                    its.subrange(0, out@.len() as int),
                ).len() + (if out@.len() > 0 {
                    1int
                } else {
                    0int
                }),
        decreases v@.len() - p,
    {
        let ghost k = out@.len() as int;
        proof {
            assert forall|its: Seq<IndustrialSoftwareDto>|
                #![trigger enc_industrials(its)]
                ind_list_at(v@, pos as int, its) implies ind_at(v@, p as int, its[k]) by {
                lemma_industrials_layout(v@, pos as int, its, k);
            }
        }
        let (item, p2) = match parse_industrial(v, p) {
            Some(x) => x,
            None => {
                return None;
            },
        };
        let ghost old_out = out@;
        out.push(item);
        proof {
            assert forall|its: Seq<IndustrialSoftwareDto>|
                #![trigger enc_industrials(its)]
                ind_list_at(v@, pos as int, its) implies enc_industrials(out@) == enc_industrials(
                its.subrange(0, k + 1),
            ) && p2 == pos + enc_industrials(its.subrange(0, k + 1)).len() && (k + 1 < its.len()
                ==> v@[p2 as int] == ',') && (k + 1 == its.len() ==> v@[p2 as int] == ']')
                && p2 < v@.len() by {
                lemma_industrials_layout(v@, pos as int, its, k);
                assert(enc_industrial(item) == enc_industrial(its[k]));
                assert(out@.drop_last() =~= old_out);
                assert(out@.last() == item);
                assert(enc_industrials(old_out) == enc_industrials(its.subrange(0, k)));
                if k == 0 {
                    assert(enc_industrials(out@) == enc_industrial(item));
                    assert(enc_industrials(its.subrange(0, 1)) == enc_industrials(its.subrange(0, 0))
                        + Seq::<char>::empty() + enc_industrial(its[0])) by {
                        lemma_industrials_step(its, 0);
                    }
                    assert(enc_industrials(its.subrange(0, 0)) =~= Seq::<char>::empty());
                    assert(enc_industrials(its.subrange(0, 1)) =~= enc_industrial(its[0]));
                } else {
                    assert(enc_industrials(out@) == enc_industrials(old_out) + seq![','] + enc_industrial(item));
                    lemma_industrials_step(its, k);
                }
                if k + 1 < its.len() {
                    lemma_industrials_prefix_within(its, k + 1);
                }
            }
        }
        p = p2;
        if p < v.len() && v[p] == ',' {
            proof {
                assert forall|its: Seq<IndustrialSoftwareDto>|
                    #![trigger enc_industrials(its)]
                    ind_list_at(v@, pos as int, its) implies k + 1 < its.len() by {
                    if k + 1 == its.len() {
                        assert(v@[p as int] == ']');
                    }
                }
            }
            p = p + 1;
        } else {
            proof {
                assert forall|its: Seq<IndustrialSoftwareDto>|
                    #![trigger enc_industrials(its)]
                    ind_list_at(v@, pos as int, its) implies k + 1 == its.len() && enc_industrials(
                    out@,
                ) == enc_industrials(its) && p == pos + enc_industrials(its).len() by {
                    if k + 1 < its.len() {
                        assert(v@[p as int] == ',');
                    }
                    assert(its.subrange(0, k + 1) =~= its);
                }
            }
            return Some((out, p));
        }
    }
}

/// Whether the text is exactly the wire form of a well-formed report.
pub open spec fn report_at(t: Seq<char>, rep: SysauditReport) -> bool {
    t == enc_report(rep) && rep.wf()
}

/// Where the report's pieces sit. Each offset is the end of the previous
/// piece.
pub open spec fn rep_o1(rep: SysauditReport) -> int {
    "{\"system\":"@.len() + "{\"os_name\":"@.len() as int
}

/// End of the OS name value.
pub open spec fn rep_o2(rep: SysauditReport) -> int {
    rep_o1(rep) + enc_string(rep.system.os_name@).len() + ",\"os_version\":"@.len()
}

/// End of the OS version value.
pub open spec fn rep_o3(rep: SysauditReport) -> int {
    rep_o2(rep) + enc_string(rep.system.os_version@).len() + ",\"host_name\":"@.len()
}

/// End of the host name value.
pub open spec fn rep_o4(rep: SysauditReport) -> int {
    rep_o3(rep) + enc_string(rep.system.host_name@).len() + ",\"cpu_info\":"@.len()
}

/// End of the CPU text value.
pub open spec fn rep_o5(rep: SysauditReport) -> int {
    rep_o4(rep) + enc_string(rep.system.cpu_info@).len() + ",\"cpu_physical_cores\":"@.len()
}

/// End of the core-count value.
pub open spec fn rep_o6(rep: SysauditReport) -> int {
    rep_o5(rep) + enc_opt_u32(rep.system.cpu_physical_cores).len()
        + ",\"memory_total_bytes\":"@.len()
}

/// End of the total-memory value.
pub open spec fn rep_o7(rep: SysauditReport) -> int {
    rep_o6(rep) + dec_str(rep.system.memory_total_bytes as nat).len()
        + ",\"memory_used_bytes\":"@.len()
}

/// End of the used-memory value.
pub open spec fn rep_o8(rep: SysauditReport) -> int {
    rep_o7(rep) + dec_str(rep.system.memory_used_bytes as nat).len() + ",\"manufacturer\":"@.len()
}

/// End of the manufacturer value.
pub open spec fn rep_o9(rep: SysauditReport) -> int {
    rep_o8(rep) + enc_opt_string(rep.system.manufacturer).len() + ",\"model\":"@.len()
}

/// End of the model value.
pub open spec fn rep_o10(rep: SysauditReport) -> int {
    rep_o9(rep) + enc_opt_string(rep.system.model).len() + ",\"network_interfaces\":["@.len()
}

/// End of the interface list.
pub open spec fn rep_o11(rep: SysauditReport) -> int {
    rep_o10(rep) + enc_ifaces(rep.system.network_interfaces@).len()
}

/// Start of the software list.
pub open spec fn rep_o12(rep: SysauditReport) -> int {
    rep_o11(rep) + "]}"@.len() + ",\"software\":["@.len()
}

/// End of the software list.
pub open spec fn rep_o13(rep: SysauditReport) -> int {
    rep_o12(rep) + enc_softwares(rep.software@).len() + "],\"industrial\":["@.len()
}

/// End of the industrial list.
pub open spec fn rep_o14(rep: SysauditReport) -> int {
    rep_o13(rep) + enc_industrials(rep.industrial@).len() + "],\"timestamp\":"@.len()
}

/// A literal made of two parts sits as its two parts.
proof fn lemma_lit_split(t: Seq<char>, a: int, x: Seq<char>, y: Seq<char>)
    requires
        lit_at(t, a, x + y),
    ensures
        lit_at(t, a, x),
        lit_at(t, a + x.len(), y),
{
    assert forall|j: int| 0 <= j < x.len() implies t.subrange(a, a + x.len() as int)[j] == x[j] by {
        assert(t.subrange(a, a + (x + y).len() as int)[j] == (x + y)[j]);
    }
    assert(t.subrange(a, a + x.len() as int) =~= x);
    assert forall|j: int|
        0 <= j < y.len() implies t.subrange(a + x.len(), a + x.len() + y.len() as int)[j]
        == y[j] by {
        assert(t.subrange(a, a + (x + y).len() as int)[x.len() + j] == (x + y)[x.len() + j]);
    }
    assert(t.subrange(a + x.len(), a + x.len() + y.len() as int) =~= y);
}

/// The report's opening pieces, in place.
spec fn slices_hold_rep_a1(t: Seq<char>, rep: SysauditReport) -> bool {
    &&& lit_at(t, 0, "{\"system\":{\"os_name\":"@)
    &&& str_at(t, rep_o1(rep), rep.system.os_name@)
    &&& lit_at(t, rep_o1(rep) + enc_string(rep.system.os_name@).len(), ",\"os_version\":"@)
    &&& str_at(t, rep_o2(rep), rep.system.os_version@)
    &&& lit_at(t, rep_o2(rep) + enc_string(rep.system.os_version@).len(), ",\"host_name\":"@)
    &&& str_at(t, rep_o3(rep), rep.system.host_name@)
    &&& lit_at(t, rep_o3(rep) + enc_string(rep.system.host_name@).len(), ",\"cpu_info\":"@)
    &&& str_at(t, rep_o4(rep), rep.system.cpu_info@)
    &&& lit_at(
        t,
        rep_o4(rep) + enc_string(rep.system.cpu_info@).len(),
        ",\"cpu_physical_cores\":"@,
    )
}

/// The report's number pieces, in place.
spec fn slices_hold_rep_a2(t: Seq<char>, rep: SysauditReport) -> bool {
    &&& (rep.system.cpu_physical_cores matches Some(n) ==> num_at(t, rep_o5(rep), n as u64))
    &&& (rep.system.cpu_physical_cores is None ==> lit_at(t, rep_o5(rep), null_text()))
    &&& lit_at(
        t,
        rep_o5(rep) + enc_opt_u32(rep.system.cpu_physical_cores).len(),
        ",\"memory_total_bytes\":"@,
    )
    &&& num_at(t, rep_o6(rep), rep.system.memory_total_bytes)
    &&& lit_at(
        t,
        rep_o6(rep) + dec_str(rep.system.memory_total_bytes as nat).len(),
        ",\"memory_used_bytes\":"@,
    )
    &&& num_at(t, rep_o7(rep), rep.system.memory_used_bytes)
    &&& lit_at(
        t,
        rep_o7(rep) + dec_str(rep.system.memory_used_bytes as nat).len(),
        ",\"manufacturer\":"@,
    )
}

/// The report's optional-field pieces, in place.
spec fn slices_hold_rep_b1(t: Seq<char>, rep: SysauditReport) -> bool {
    &&& (rep.system.manufacturer matches Some(s) ==> str_at(t, rep_o8(rep), s@))
    &&& (rep.system.manufacturer is None ==> lit_at(t, rep_o8(rep), null_text()))
    &&& lit_at(t, rep_o8(rep) + enc_opt_string(rep.system.manufacturer).len(), ",\"model\":"@)
    &&& (rep.system.model matches Some(s) ==> str_at(t, rep_o9(rep), s@))
    &&& (rep.system.model is None ==> lit_at(t, rep_o9(rep), null_text()))
    &&& lit_at(
        t,
        rep_o9(rep) + enc_opt_string(rep.system.model).len(),
        ",\"network_interfaces\":["@,
    )
    &&& iface_list_at(t, rep_o10(rep), rep.system.network_interfaces@)
    &&& lit_at(t, rep_o11(rep), "]}"@)
    &&& lit_at(t, rep_o11(rep) + "]}"@.len(), ",\"software\":["@)
}

/// The report's list and closing pieces, in place.
spec fn slices_hold_rep_b2(t: Seq<char>, rep: SysauditReport) -> bool {
    &&& soft_list_at(t, rep_o12(rep), rep.software@)
    &&& lit_at(t, rep_o12(rep) + enc_softwares(rep.software@).len(), "],\"industrial\":["@)
    &&& ind_list_at(t, rep_o13(rep), rep.industrial@)
    &&& lit_at(t, rep_o13(rep) + enc_industrials(rep.industrial@).len(), "],\"timestamp\":"@)
    &&& lit_at(t, rep_o14(rep), enc_instant(rep.timestamp))
    &&& lit_at(t, rep_o14(rep) + 22, "}"@)
    &&& t.len() == rep_o14(rep) + 23
}


/// All of the report's pieces, in place.
spec fn slices_hold_rep(t: Seq<char>, rep: SysauditReport) -> bool {
    slices_hold_rep_a1(t, rep) && slices_hold_rep_a2(t, rep) && slices_hold_rep_b1(t, rep)
        && slices_hold_rep_b2(t, rep)
}

/// Two adjacent literals at the text's head read as their concatenation.
proof fn lemma_merged_head(t: Seq<char>, sysoff: int)
    requires
        lit_at(t, 0, "{\"system\":"@),
        sysoff == "{\"system\":"@.len(),
        lit_at(t, sysoff, "{\"os_name\":"@),
    ensures
        lit_at(t, 0, "{\"system\":{\"os_name\":"@),
{
    reveal_strlit("{\"system\":");
    reveal_strlit("{\"os_name\":");
    reveal_strlit("{\"system\":{\"os_name\":");
    assert forall|j: int|
        0 <= j < "{\"system\":{\"os_name\":"@.len() implies t.subrange(
        0,
        "{\"system\":{\"os_name\":"@.len() as int,
    )[j] == "{\"system\":{\"os_name\":"@[j] by {
        if j < "{\"system\":"@.len() {
            assert(t.subrange(0, "{\"system\":"@.len() as int)[j] == "{\"system\":"@[j]);
        } else {
            assert(t.subrange(sysoff, sysoff + "{\"os_name\":"@.len() as int)[j - sysoff]
                == "{\"os_name\":"@[j - sysoff]);
        }
    }
    assert(t.subrange(0, "{\"system\":{\"os_name\":"@.len() as int)
        =~= "{\"system\":{\"os_name\":"@);
}

/// Where the report's open pieces sit.
#[verifier::rlimit(100)]
#[verifier::spinoff_prover]
proof fn lemma_rep_slices_open(t: Seq<char>, rep: SysauditReport)
    requires
        report_at(t, rep),
    ensures
        slices_hold_rep_a1(t, rep),
{
    reveal_strlit("{\"system\":");
    reveal_strlit("{\"os_name\":");
    reveal_strlit("{\"system\":{\"os_name\":");
    reveal_strlit(",\"os_version\":");
    reveal_strlit(",\"host_name\":");
    reveal_strlit(",\"cpu_info\":");
    reveal_strlit(",\"cpu_physical_cores\":");
    reveal_strlit(",\"memory_total_bytes\":");
    reveal_strlit(",\"memory_used_bytes\":");
    reveal_strlit(",\"manufacturer\":");
    reveal_strlit(",\"model\":");
    reveal_strlit(",\"network_interfaces\":[");
    reveal_strlit("]}");
    reveal_strlit(",\"software\":[");
    reveal_strlit("],\"industrial\":[");
    reveal_strlit("],\"timestamp\":");
    reveal_strlit("}");
    reveal_strlit("null");
    assert("null"@ =~= null_text());
    assert(enc_instant(rep.timestamp).len() == 22);
    assert(lit_at(t, 0, enc_report(rep))) by {
        assert(t.subrange(0, enc_report(rep).len() as int) =~= t);
    }
    lemma_lit_split(t, 0, "{\"system\":"@ + enc_system(rep.system) + ",\"software\":["@ + enc_softwares(rep.software@) + "],\"industrial\":["@ + enc_industrials(rep.industrial@) + "],\"timestamp\":"@ + enc_instant(rep.timestamp), "}"@);
    lemma_lit_split(t, 0, "{\"system\":"@ + enc_system(rep.system) + ",\"software\":["@ + enc_softwares(rep.software@) + "],\"industrial\":["@ + enc_industrials(rep.industrial@) + "],\"timestamp\":"@, enc_instant(rep.timestamp));
    lemma_lit_split(t, 0, "{\"system\":"@ + enc_system(rep.system) + ",\"software\":["@ + enc_softwares(rep.software@) + "],\"industrial\":["@ + enc_industrials(rep.industrial@), "],\"timestamp\":"@);
    lemma_lit_split(t, 0, "{\"system\":"@ + enc_system(rep.system) + ",\"software\":["@ + enc_softwares(rep.software@) + "],\"industrial\":["@, enc_industrials(rep.industrial@));
    lemma_lit_split(t, 0, "{\"system\":"@ + enc_system(rep.system) + ",\"software\":["@ + enc_softwares(rep.software@), "],\"industrial\":["@);
    lemma_lit_split(t, 0, "{\"system\":"@ + enc_system(rep.system) + ",\"software\":["@, enc_softwares(rep.software@));
    lemma_lit_split(t, 0, "{\"system\":"@ + enc_system(rep.system), ",\"software\":["@);
    lemma_lit_split(t, 0, "{\"system\":"@, enc_system(rep.system));
    let sysoff = "{\"system\":"@.len() as int;
    assert(lit_at(t, sysoff, enc_system(rep.system)));
    lemma_lit_split(t, sysoff, "{\"os_name\":"@ + enc_string(rep.system.os_name@) + ",\"os_version\":"@ + enc_string(rep.system.os_version@) + ",\"host_name\":"@ + enc_string(rep.system.host_name@) + ",\"cpu_info\":"@ + enc_string(rep.system.cpu_info@) + ",\"cpu_physical_cores\":"@ + enc_opt_u32(rep.system.cpu_physical_cores) + ",\"memory_total_bytes\":"@ + dec_str(rep.system.memory_total_bytes as nat) + ",\"memory_used_bytes\":"@ + dec_str(rep.system.memory_used_bytes as nat) + ",\"manufacturer\":"@ + enc_opt_string(rep.system.manufacturer) + ",\"model\":"@ + enc_opt_string(rep.system.model) + ",\"network_interfaces\":["@ + enc_ifaces(rep.system.network_interfaces@), "]}"@);
    lemma_lit_split(t, sysoff, "{\"os_name\":"@ + enc_string(rep.system.os_name@) + ",\"os_version\":"@ + enc_string(rep.system.os_version@) + ",\"host_name\":"@ + enc_string(rep.system.host_name@) + ",\"cpu_info\":"@ + enc_string(rep.system.cpu_info@) + ",\"cpu_physical_cores\":"@ + enc_opt_u32(rep.system.cpu_physical_cores) + ",\"memory_total_bytes\":"@ + dec_str(rep.system.memory_total_bytes as nat) + ",\"memory_used_bytes\":"@ + dec_str(rep.system.memory_used_bytes as nat) + ",\"manufacturer\":"@ + enc_opt_string(rep.system.manufacturer) + ",\"model\":"@ + enc_opt_string(rep.system.model) + ",\"network_interfaces\":["@, enc_ifaces(rep.system.network_interfaces@));
    lemma_lit_split(t, sysoff, "{\"os_name\":"@ + enc_string(rep.system.os_name@) + ",\"os_version\":"@ + enc_string(rep.system.os_version@) + ",\"host_name\":"@ + enc_string(rep.system.host_name@) + ",\"cpu_info\":"@ + enc_string(rep.system.cpu_info@) + ",\"cpu_physical_cores\":"@ + enc_opt_u32(rep.system.cpu_physical_cores) + ",\"memory_total_bytes\":"@ + dec_str(rep.system.memory_total_bytes as nat) + ",\"memory_used_bytes\":"@ + dec_str(rep.system.memory_used_bytes as nat) + ",\"manufacturer\":"@ + enc_opt_string(rep.system.manufacturer) + ",\"model\":"@ + enc_opt_string(rep.system.model), ",\"network_interfaces\":["@);
    lemma_lit_split(t, sysoff, "{\"os_name\":"@ + enc_string(rep.system.os_name@) + ",\"os_version\":"@ + enc_string(rep.system.os_version@) + ",\"host_name\":"@ + enc_string(rep.system.host_name@) + ",\"cpu_info\":"@ + enc_string(rep.system.cpu_info@) + ",\"cpu_physical_cores\":"@ + enc_opt_u32(rep.system.cpu_physical_cores) + ",\"memory_total_bytes\":"@ + dec_str(rep.system.memory_total_bytes as nat) + ",\"memory_used_bytes\":"@ + dec_str(rep.system.memory_used_bytes as nat) + ",\"manufacturer\":"@ + enc_opt_string(rep.system.manufacturer) + ",\"model\":"@, enc_opt_string(rep.system.model));
    lemma_lit_split(t, sysoff, "{\"os_name\":"@ + enc_string(rep.system.os_name@) + ",\"os_version\":"@ + enc_string(rep.system.os_version@) + ",\"host_name\":"@ + enc_string(rep.system.host_name@) + ",\"cpu_info\":"@ + enc_string(rep.system.cpu_info@) + ",\"cpu_physical_cores\":"@ + enc_opt_u32(rep.system.cpu_physical_cores) + ",\"memory_total_bytes\":"@ + dec_str(rep.system.memory_total_bytes as nat) + ",\"memory_used_bytes\":"@ + dec_str(rep.system.memory_used_bytes as nat) + ",\"manufacturer\":"@ + enc_opt_string(rep.system.manufacturer), ",\"model\":"@);
    lemma_lit_split(t, sysoff, "{\"os_name\":"@ + enc_string(rep.system.os_name@) + ",\"os_version\":"@ + enc_string(rep.system.os_version@) + ",\"host_name\":"@ + enc_string(rep.system.host_name@) + ",\"cpu_info\":"@ + enc_string(rep.system.cpu_info@) + ",\"cpu_physical_cores\":"@ + enc_opt_u32(rep.system.cpu_physical_cores) + ",\"memory_total_bytes\":"@ + dec_str(rep.system.memory_total_bytes as nat) + ",\"memory_used_bytes\":"@ + dec_str(rep.system.memory_used_bytes as nat) + ",\"manufacturer\":"@, enc_opt_string(rep.system.manufacturer));
    lemma_lit_split(t, sysoff, "{\"os_name\":"@ + enc_string(rep.system.os_name@) + ",\"os_version\":"@ + enc_string(rep.system.os_version@) + ",\"host_name\":"@ + enc_string(rep.system.host_name@) + ",\"cpu_info\":"@ + enc_string(rep.system.cpu_info@) + ",\"cpu_physical_cores\":"@ + enc_opt_u32(rep.system.cpu_physical_cores) + ",\"memory_total_bytes\":"@ + dec_str(rep.system.memory_total_bytes as nat) + ",\"memory_used_bytes\":"@ + dec_str(rep.system.memory_used_bytes as nat), ",\"manufacturer\":"@);
    lemma_lit_split(t, sysoff, "{\"os_name\":"@ + enc_string(rep.system.os_name@) + ",\"os_version\":"@ + enc_string(rep.system.os_version@) + ",\"host_name\":"@ + enc_string(rep.system.host_name@) + ",\"cpu_info\":"@ + enc_string(rep.system.cpu_info@) + ",\"cpu_physical_cores\":"@ + enc_opt_u32(rep.system.cpu_physical_cores) + ",\"memory_total_bytes\":"@ + dec_str(rep.system.memory_total_bytes as nat) + ",\"memory_used_bytes\":"@, dec_str(rep.system.memory_used_bytes as nat));
    lemma_lit_split(t, sysoff, "{\"os_name\":"@ + enc_string(rep.system.os_name@) + ",\"os_version\":"@ + enc_string(rep.system.os_version@) + ",\"host_name\":"@ + enc_string(rep.system.host_name@) + ",\"cpu_info\":"@ + enc_string(rep.system.cpu_info@) + ",\"cpu_physical_cores\":"@ + enc_opt_u32(rep.system.cpu_physical_cores) + ",\"memory_total_bytes\":"@ + dec_str(rep.system.memory_total_bytes as nat), ",\"memory_used_bytes\":"@);
    lemma_lit_split(t, sysoff, "{\"os_name\":"@ + enc_string(rep.system.os_name@) + ",\"os_version\":"@ + enc_string(rep.system.os_version@) + ",\"host_name\":"@ + enc_string(rep.system.host_name@) + ",\"cpu_info\":"@ + enc_string(rep.system.cpu_info@) + ",\"cpu_physical_cores\":"@ + enc_opt_u32(rep.system.cpu_physical_cores) + ",\"memory_total_bytes\":"@, dec_str(rep.system.memory_total_bytes as nat));
    lemma_lit_split(t, sysoff, "{\"os_name\":"@ + enc_string(rep.system.os_name@) + ",\"os_version\":"@ + enc_string(rep.system.os_version@) + ",\"host_name\":"@ + enc_string(rep.system.host_name@) + ",\"cpu_info\":"@ + enc_string(rep.system.cpu_info@) + ",\"cpu_physical_cores\":"@ + enc_opt_u32(rep.system.cpu_physical_cores), ",\"memory_total_bytes\":"@);
    lemma_lit_split(t, sysoff, "{\"os_name\":"@ + enc_string(rep.system.os_name@) + ",\"os_version\":"@ + enc_string(rep.system.os_version@) + ",\"host_name\":"@ + enc_string(rep.system.host_name@) + ",\"cpu_info\":"@ + enc_string(rep.system.cpu_info@) + ",\"cpu_physical_cores\":"@, enc_opt_u32(rep.system.cpu_physical_cores));
    lemma_lit_split(t, sysoff, "{\"os_name\":"@ + enc_string(rep.system.os_name@) + ",\"os_version\":"@ + enc_string(rep.system.os_version@) + ",\"host_name\":"@ + enc_string(rep.system.host_name@) + ",\"cpu_info\":"@ + enc_string(rep.system.cpu_info@), ",\"cpu_physical_cores\":"@);
    lemma_lit_split(t, sysoff, "{\"os_name\":"@ + enc_string(rep.system.os_name@) + ",\"os_version\":"@ + enc_string(rep.system.os_version@) + ",\"host_name\":"@ + enc_string(rep.system.host_name@) + ",\"cpu_info\":"@, enc_string(rep.system.cpu_info@));
    lemma_lit_split(t, sysoff, "{\"os_name\":"@ + enc_string(rep.system.os_name@) + ",\"os_version\":"@ + enc_string(rep.system.os_version@) + ",\"host_name\":"@ + enc_string(rep.system.host_name@), ",\"cpu_info\":"@);
    lemma_lit_split(t, sysoff, "{\"os_name\":"@ + enc_string(rep.system.os_name@) + ",\"os_version\":"@ + enc_string(rep.system.os_version@) + ",\"host_name\":"@, enc_string(rep.system.host_name@));
    lemma_lit_split(t, sysoff, "{\"os_name\":"@ + enc_string(rep.system.os_name@) + ",\"os_version\":"@ + enc_string(rep.system.os_version@), ",\"host_name\":"@);
    lemma_lit_split(t, sysoff, "{\"os_name\":"@ + enc_string(rep.system.os_name@) + ",\"os_version\":"@, enc_string(rep.system.os_version@));
    lemma_lit_split(t, sysoff, "{\"os_name\":"@ + enc_string(rep.system.os_name@), ",\"os_version\":"@);
    lemma_lit_split(t, sysoff, "{\"os_name\":"@, enc_string(rep.system.os_name@));
    lemma_merged_head(t, sysoff);
}

/// Where the report's nums pieces sit.
#[verifier::rlimit(100)]
#[verifier::spinoff_prover]
proof fn lemma_rep_slices_nums(t: Seq<char>, rep: SysauditReport)
    requires
        report_at(t, rep),
    ensures
        slices_hold_rep_a2(t, rep),
{
    reveal_strlit("{\"system\":");
    reveal_strlit("{\"os_name\":");
    reveal_strlit("{\"system\":{\"os_name\":");
    reveal_strlit(",\"os_version\":");
    reveal_strlit(",\"host_name\":");
    reveal_strlit(",\"cpu_info\":");
    reveal_strlit(",\"cpu_physical_cores\":");
    reveal_strlit(",\"memory_total_bytes\":");
    reveal_strlit(",\"memory_used_bytes\":");
    reveal_strlit(",\"manufacturer\":");
    reveal_strlit(",\"model\":");
    reveal_strlit(",\"network_interfaces\":[");
    reveal_strlit("]}");
    reveal_strlit(",\"software\":[");
    reveal_strlit("],\"industrial\":[");
    reveal_strlit("],\"timestamp\":");
    reveal_strlit("}");
    reveal_strlit("null");
    assert("null"@ =~= null_text());
    assert(enc_instant(rep.timestamp).len() == 22);
    assert(lit_at(t, 0, enc_report(rep))) by {
        assert(t.subrange(0, enc_report(rep).len() as int) =~= t);
    }
    lemma_lit_split(t, 0, "{\"system\":"@ + enc_system(rep.system) + ",\"software\":["@ + enc_softwares(rep.software@) + "],\"industrial\":["@ + enc_industrials(rep.industrial@) + "],\"timestamp\":"@ + enc_instant(rep.timestamp), "}"@);
    lemma_lit_split(t, 0, "{\"system\":"@ + enc_system(rep.system) + ",\"software\":["@ + enc_softwares(rep.software@) + "],\"industrial\":["@ + enc_industrials(rep.industrial@) + "],\"timestamp\":"@, enc_instant(rep.timestamp));
    lemma_lit_split(t, 0, "{\"system\":"@ + enc_system(rep.system) + ",\"software\":["@ + enc_softwares(rep.software@) + "],\"industrial\":["@ + enc_industrials(rep.industrial@), "],\"timestamp\":"@);
    lemma_lit_split(t, 0, "{\"system\":"@ + enc_system(rep.system) + ",\"software\":["@ + enc_softwares(rep.software@) + "],\"industrial\":["@, enc_industrials(rep.industrial@));
    lemma_lit_split(t, 0, "{\"system\":"@ + enc_system(rep.system) + ",\"software\":["@ + enc_softwares(rep.software@), "],\"industrial\":["@);
    lemma_lit_split(t, 0, "{\"system\":"@ + enc_system(rep.system) + ",\"software\":["@, enc_softwares(rep.software@));
    lemma_lit_split(t, 0, "{\"system\":"@ + enc_system(rep.system), ",\"software\":["@);
    lemma_lit_split(t, 0, "{\"system\":"@, enc_system(rep.system));
    let sysoff = "{\"system\":"@.len() as int;
    assert(lit_at(t, sysoff, enc_system(rep.system)));
    lemma_lit_split(t, sysoff, "{\"os_name\":"@ + enc_string(rep.system.os_name@) + ",\"os_version\":"@ + enc_string(rep.system.os_version@) + ",\"host_name\":"@ + enc_string(rep.system.host_name@) + ",\"cpu_info\":"@ + enc_string(rep.system.cpu_info@) + ",\"cpu_physical_cores\":"@ + enc_opt_u32(rep.system.cpu_physical_cores) + ",\"memory_total_bytes\":"@ + dec_str(rep.system.memory_total_bytes as nat) + ",\"memory_used_bytes\":"@ + dec_str(rep.system.memory_used_bytes as nat) + ",\"manufacturer\":"@ + enc_opt_string(rep.system.manufacturer) + ",\"model\":"@ + enc_opt_string(rep.system.model) + ",\"network_interfaces\":["@ + enc_ifaces(rep.system.network_interfaces@), "]}"@);
    lemma_lit_split(t, sysoff, "{\"os_name\":"@ + enc_string(rep.system.os_name@) + ",\"os_version\":"@ + enc_string(rep.system.os_version@) + ",\"host_name\":"@ + enc_string(rep.system.host_name@) + ",\"cpu_info\":"@ + enc_string(rep.system.cpu_info@) + ",\"cpu_physical_cores\":"@ + enc_opt_u32(rep.system.cpu_physical_cores) + ",\"memory_total_bytes\":"@ + dec_str(rep.system.memory_total_bytes as nat) + ",\"memory_used_bytes\":"@ + dec_str(rep.system.memory_used_bytes as nat) + ",\"manufacturer\":"@ + enc_opt_string(rep.system.manufacturer) + ",\"model\":"@ + enc_opt_string(rep.system.model) + ",\"network_interfaces\":["@, enc_ifaces(rep.system.network_interfaces@));
    lemma_lit_split(t, sysoff, "{\"os_name\":"@ + enc_string(rep.system.os_name@) + ",\"os_version\":"@ + enc_string(rep.system.os_version@) + ",\"host_name\":"@ + enc_string(rep.system.host_name@) + ",\"cpu_info\":"@ + enc_string(rep.system.cpu_info@) + ",\"cpu_physical_cores\":"@ + enc_opt_u32(rep.system.cpu_physical_cores) + ",\"memory_total_bytes\":"@ + dec_str(rep.system.memory_total_bytes as nat) + ",\"memory_used_bytes\":"@ + dec_str(rep.system.memory_used_bytes as nat) + ",\"manufacturer\":"@ + enc_opt_string(rep.system.manufacturer) + ",\"model\":"@ + enc_opt_string(rep.system.model), ",\"network_interfaces\":["@);
    lemma_lit_split(t, sysoff, "{\"os_name\":"@ + enc_string(rep.system.os_name@) + ",\"os_version\":"@ + enc_string(rep.system.os_version@) + ",\"host_name\":"@ + enc_string(rep.system.host_name@) + ",\"cpu_info\":"@ + enc_string(rep.system.cpu_info@) + ",\"cpu_physical_cores\":"@ + enc_opt_u32(rep.system.cpu_physical_cores) + ",\"memory_total_bytes\":"@ + dec_str(rep.system.memory_total_bytes as nat) + ",\"memory_used_bytes\":"@ + dec_str(rep.system.memory_used_bytes as nat) + ",\"manufacturer\":"@ + enc_opt_string(rep.system.manufacturer) + ",\"model\":"@, enc_opt_string(rep.system.model));
    lemma_lit_split(t, sysoff, "{\"os_name\":"@ + enc_string(rep.system.os_name@) + ",\"os_version\":"@ + enc_string(rep.system.os_version@) + ",\"host_name\":"@ + enc_string(rep.system.host_name@) + ",\"cpu_info\":"@ + enc_string(rep.system.cpu_info@) + ",\"cpu_physical_cores\":"@ + enc_opt_u32(rep.system.cpu_physical_cores) + ",\"memory_total_bytes\":"@ + dec_str(rep.system.memory_total_bytes as nat) + ",\"memory_used_bytes\":"@ + dec_str(rep.system.memory_used_bytes as nat) + ",\"manufacturer\":"@ + enc_opt_string(rep.system.manufacturer), ",\"model\":"@);
    lemma_lit_split(t, sysoff, "{\"os_name\":"@ + enc_string(rep.system.os_name@) + ",\"os_version\":"@ + enc_string(rep.system.os_version@) + ",\"host_name\":"@ + enc_string(rep.system.host_name@) + ",\"cpu_info\":"@ + enc_string(rep.system.cpu_info@) + ",\"cpu_physical_cores\":"@ + enc_opt_u32(rep.system.cpu_physical_cores) + ",\"memory_total_bytes\":"@ + dec_str(rep.system.memory_total_bytes as nat) + ",\"memory_used_bytes\":"@ + dec_str(rep.system.memory_used_bytes as nat) + ",\"manufacturer\":"@, enc_opt_string(rep.system.manufacturer));
    lemma_lit_split(t, sysoff, "{\"os_name\":"@ + enc_string(rep.system.os_name@) + ",\"os_version\":"@ + enc_string(rep.system.os_version@) + ",\"host_name\":"@ + enc_string(rep.system.host_name@) + ",\"cpu_info\":"@ + enc_string(rep.system.cpu_info@) + ",\"cpu_physical_cores\":"@ + enc_opt_u32(rep.system.cpu_physical_cores) + ",\"memory_total_bytes\":"@ + dec_str(rep.system.memory_total_bytes as nat) + ",\"memory_used_bytes\":"@ + dec_str(rep.system.memory_used_bytes as nat), ",\"manufacturer\":"@);
    lemma_lit_split(t, sysoff, "{\"os_name\":"@ + enc_string(rep.system.os_name@) + ",\"os_version\":"@ + enc_string(rep.system.os_version@) + ",\"host_name\":"@ + enc_string(rep.system.host_name@) + ",\"cpu_info\":"@ + enc_string(rep.system.cpu_info@) + ",\"cpu_physical_cores\":"@ + enc_opt_u32(rep.system.cpu_physical_cores) + ",\"memory_total_bytes\":"@ + dec_str(rep.system.memory_total_bytes as nat) + ",\"memory_used_bytes\":"@, dec_str(rep.system.memory_used_bytes as nat));
    lemma_lit_split(t, sysoff, "{\"os_name\":"@ + enc_string(rep.system.os_name@) + ",\"os_version\":"@ + enc_string(rep.system.os_version@) + ",\"host_name\":"@ + enc_string(rep.system.host_name@) + ",\"cpu_info\":"@ + enc_string(rep.system.cpu_info@) + ",\"cpu_physical_cores\":"@ + enc_opt_u32(rep.system.cpu_physical_cores) + ",\"memory_total_bytes\":"@ + dec_str(rep.system.memory_total_bytes as nat), ",\"memory_used_bytes\":"@);
    lemma_lit_split(t, sysoff, "{\"os_name\":"@ + enc_string(rep.system.os_name@) + ",\"os_version\":"@ + enc_string(rep.system.os_version@) + ",\"host_name\":"@ + enc_string(rep.system.host_name@) + ",\"cpu_info\":"@ + enc_string(rep.system.cpu_info@) + ",\"cpu_physical_cores\":"@ + enc_opt_u32(rep.system.cpu_physical_cores) + ",\"memory_total_bytes\":"@, dec_str(rep.system.memory_total_bytes as nat));
    lemma_lit_split(t, sysoff, "{\"os_name\":"@ + enc_string(rep.system.os_name@) + ",\"os_version\":"@ + enc_string(rep.system.os_version@) + ",\"host_name\":"@ + enc_string(rep.system.host_name@) + ",\"cpu_info\":"@ + enc_string(rep.system.cpu_info@) + ",\"cpu_physical_cores\":"@ + enc_opt_u32(rep.system.cpu_physical_cores), ",\"memory_total_bytes\":"@);
    lemma_lit_split(t, sysoff, "{\"os_name\":"@ + enc_string(rep.system.os_name@) + ",\"os_version\":"@ + enc_string(rep.system.os_version@) + ",\"host_name\":"@ + enc_string(rep.system.host_name@) + ",\"cpu_info\":"@ + enc_string(rep.system.cpu_info@) + ",\"cpu_physical_cores\":"@, enc_opt_u32(rep.system.cpu_physical_cores));
    lemma_lit_split(t, sysoff, "{\"os_name\":"@ + enc_string(rep.system.os_name@) + ",\"os_version\":"@ + enc_string(rep.system.os_version@) + ",\"host_name\":"@ + enc_string(rep.system.host_name@) + ",\"cpu_info\":"@ + enc_string(rep.system.cpu_info@), ",\"cpu_physical_cores\":"@);
    lemma_lit_split(t, sysoff, "{\"os_name\":"@ + enc_string(rep.system.os_name@) + ",\"os_version\":"@ + enc_string(rep.system.os_version@) + ",\"host_name\":"@ + enc_string(rep.system.host_name@) + ",\"cpu_info\":"@, enc_string(rep.system.cpu_info@));
    lemma_lit_split(t, sysoff, "{\"os_name\":"@ + enc_string(rep.system.os_name@) + ",\"os_version\":"@ + enc_string(rep.system.os_version@) + ",\"host_name\":"@ + enc_string(rep.system.host_name@), ",\"cpu_info\":"@);
    lemma_lit_split(t, sysoff, "{\"os_name\":"@ + enc_string(rep.system.os_name@) + ",\"os_version\":"@ + enc_string(rep.system.os_version@) + ",\"host_name\":"@, enc_string(rep.system.host_name@));
    lemma_lit_split(t, sysoff, "{\"os_name\":"@ + enc_string(rep.system.os_name@) + ",\"os_version\":"@ + enc_string(rep.system.os_version@), ",\"host_name\":"@);
    lemma_lit_split(t, sysoff, "{\"os_name\":"@ + enc_string(rep.system.os_name@) + ",\"os_version\":"@, enc_string(rep.system.os_version@));
    lemma_lit_split(t, sysoff, "{\"os_name\":"@ + enc_string(rep.system.os_name@), ",\"os_version\":"@);
    lemma_lit_split(t, sysoff, "{\"os_name\":"@, enc_string(rep.system.os_name@));
    match rep.system.cpu_physical_cores {
        Some(n) => {
            assert(enc_opt_u32(rep.system.cpu_physical_cores) == dec_str(n as nat));
            assert(t[rep_o5(rep) + dec_str(n as nat).len()] == ',');
            assert(num_at(t, rep_o5(rep), n as u64));
        },
        None => {
            assert(lit_at(t, rep_o5(rep), null_text()));
        },
    }
    assert(t[rep_o6(rep) + dec_str(rep.system.memory_total_bytes as nat).len()] == ',');
    assert(num_at(t, rep_o6(rep), rep.system.memory_total_bytes));
    assert(t[rep_o7(rep) + dec_str(rep.system.memory_used_bytes as nat).len()] == ',');
    assert(num_at(t, rep_o7(rep), rep.system.memory_used_bytes));

}

/// Where the report's tail pieces sit.
#[verifier::rlimit(100)]
#[verifier::spinoff_prover]
proof fn lemma_rep_slices_tail(t: Seq<char>, rep: SysauditReport)
    requires
        report_at(t, rep),
    ensures
        slices_hold_rep_b1(t, rep) && slices_hold_rep_b2(t, rep),
{
    reveal_strlit("{\"system\":");
    reveal_strlit("{\"os_name\":");
    reveal_strlit("{\"system\":{\"os_name\":");
    reveal_strlit(",\"os_version\":");
    reveal_strlit(",\"host_name\":");
    reveal_strlit(",\"cpu_info\":");
    reveal_strlit(",\"cpu_physical_cores\":");
    reveal_strlit(",\"memory_total_bytes\":");
    reveal_strlit(",\"memory_used_bytes\":");
    reveal_strlit(",\"manufacturer\":");
    reveal_strlit(",\"model\":");
    reveal_strlit(",\"network_interfaces\":[");
    reveal_strlit("]}");
    reveal_strlit(",\"software\":[");
    reveal_strlit("],\"industrial\":[");
    reveal_strlit("],\"timestamp\":");
    reveal_strlit("}");
    reveal_strlit("null");
    assert("null"@ =~= null_text());
    assert(enc_instant(rep.timestamp).len() == 22);
    assert(lit_at(t, 0, enc_report(rep))) by {
        assert(t.subrange(0, enc_report(rep).len() as int) =~= t);
    }
    lemma_lit_split(t, 0, "{\"system\":"@ + enc_system(rep.system) + ",\"software\":["@ + enc_softwares(rep.software@) + "],\"industrial\":["@ + enc_industrials(rep.industrial@) + "],\"timestamp\":"@ + enc_instant(rep.timestamp), "}"@);
    lemma_lit_split(t, 0, "{\"system\":"@ + enc_system(rep.system) + ",\"software\":["@ + enc_softwares(rep.software@) + "],\"industrial\":["@ + enc_industrials(rep.industrial@) + "],\"timestamp\":"@, enc_instant(rep.timestamp));
    lemma_lit_split(t, 0, "{\"system\":"@ + enc_system(rep.system) + ",\"software\":["@ + enc_softwares(rep.software@) + "],\"industrial\":["@ + enc_industrials(rep.industrial@), "],\"timestamp\":"@);
    lemma_lit_split(t, 0, "{\"system\":"@ + enc_system(rep.system) + ",\"software\":["@ + enc_softwares(rep.software@) + "],\"industrial\":["@, enc_industrials(rep.industrial@));
    lemma_lit_split(t, 0, "{\"system\":"@ + enc_system(rep.system) + ",\"software\":["@ + enc_softwares(rep.software@), "],\"industrial\":["@);
    lemma_lit_split(t, 0, "{\"system\":"@ + enc_system(rep.system) + ",\"software\":["@, enc_softwares(rep.software@));
    lemma_lit_split(t, 0, "{\"system\":"@ + enc_system(rep.system), ",\"software\":["@);
    lemma_lit_split(t, 0, "{\"system\":"@, enc_system(rep.system));
    let sysoff = "{\"system\":"@.len() as int;
    assert(lit_at(t, sysoff, enc_system(rep.system)));
    lemma_lit_split(t, sysoff, "{\"os_name\":"@ + enc_string(rep.system.os_name@) + ",\"os_version\":"@ + enc_string(rep.system.os_version@) + ",\"host_name\":"@ + enc_string(rep.system.host_name@) + ",\"cpu_info\":"@ + enc_string(rep.system.cpu_info@) + ",\"cpu_physical_cores\":"@ + enc_opt_u32(rep.system.cpu_physical_cores) + ",\"memory_total_bytes\":"@ + dec_str(rep.system.memory_total_bytes as nat) + ",\"memory_used_bytes\":"@ + dec_str(rep.system.memory_used_bytes as nat) + ",\"manufacturer\":"@ + enc_opt_string(rep.system.manufacturer) + ",\"model\":"@ + enc_opt_string(rep.system.model) + ",\"network_interfaces\":["@ + enc_ifaces(rep.system.network_interfaces@), "]}"@);
    lemma_lit_split(t, sysoff, "{\"os_name\":"@ + enc_string(rep.system.os_name@) + ",\"os_version\":"@ + enc_string(rep.system.os_version@) + ",\"host_name\":"@ + enc_string(rep.system.host_name@) + ",\"cpu_info\":"@ + enc_string(rep.system.cpu_info@) + ",\"cpu_physical_cores\":"@ + enc_opt_u32(rep.system.cpu_physical_cores) + ",\"memory_total_bytes\":"@ + dec_str(rep.system.memory_total_bytes as nat) + ",\"memory_used_bytes\":"@ + dec_str(rep.system.memory_used_bytes as nat) + ",\"manufacturer\":"@ + enc_opt_string(rep.system.manufacturer) + ",\"model\":"@ + enc_opt_string(rep.system.model) + ",\"network_interfaces\":["@, enc_ifaces(rep.system.network_interfaces@));
    lemma_lit_split(t, sysoff, "{\"os_name\":"@ + enc_string(rep.system.os_name@) + ",\"os_version\":"@ + enc_string(rep.system.os_version@) + ",\"host_name\":"@ + enc_string(rep.system.host_name@) + ",\"cpu_info\":"@ + enc_string(rep.system.cpu_info@) + ",\"cpu_physical_cores\":"@ + enc_opt_u32(rep.system.cpu_physical_cores) + ",\"memory_total_bytes\":"@ + dec_str(rep.system.memory_total_bytes as nat) + ",\"memory_used_bytes\":"@ + dec_str(rep.system.memory_used_bytes as nat) + ",\"manufacturer\":"@ + enc_opt_string(rep.system.manufacturer) + ",\"model\":"@ + enc_opt_string(rep.system.model), ",\"network_interfaces\":["@);
    lemma_lit_split(t, sysoff, "{\"os_name\":"@ + enc_string(rep.system.os_name@) + ",\"os_version\":"@ + enc_string(rep.system.os_version@) + ",\"host_name\":"@ + enc_string(rep.system.host_name@) + ",\"cpu_info\":"@ + enc_string(rep.system.cpu_info@) + ",\"cpu_physical_cores\":"@ + enc_opt_u32(rep.system.cpu_physical_cores) + ",\"memory_total_bytes\":"@ + dec_str(rep.system.memory_total_bytes as nat) + ",\"memory_used_bytes\":"@ + dec_str(rep.system.memory_used_bytes as nat) + ",\"manufacturer\":"@ + enc_opt_string(rep.system.manufacturer) + ",\"model\":"@, enc_opt_string(rep.system.model));
    lemma_lit_split(t, sysoff, "{\"os_name\":"@ + enc_string(rep.system.os_name@) + ",\"os_version\":"@ + enc_string(rep.system.os_version@) + ",\"host_name\":"@ + enc_string(rep.system.host_name@) + ",\"cpu_info\":"@ + enc_string(rep.system.cpu_info@) + ",\"cpu_physical_cores\":"@ + enc_opt_u32(rep.system.cpu_physical_cores) + ",\"memory_total_bytes\":"@ + dec_str(rep.system.memory_total_bytes as nat) + ",\"memory_used_bytes\":"@ + dec_str(rep.system.memory_used_bytes as nat) + ",\"manufacturer\":"@ + enc_opt_string(rep.system.manufacturer), ",\"model\":"@);
    lemma_lit_split(t, sysoff, "{\"os_name\":"@ + enc_string(rep.system.os_name@) + ",\"os_version\":"@ + enc_string(rep.system.os_version@) + ",\"host_name\":"@ + enc_string(rep.system.host_name@) + ",\"cpu_info\":"@ + enc_string(rep.system.cpu_info@) + ",\"cpu_physical_cores\":"@ + enc_opt_u32(rep.system.cpu_physical_cores) + ",\"memory_total_bytes\":"@ + dec_str(rep.system.memory_total_bytes as nat) + ",\"memory_used_bytes\":"@ + dec_str(rep.system.memory_used_bytes as nat) + ",\"manufacturer\":"@, enc_opt_string(rep.system.manufacturer));
    lemma_lit_split(t, sysoff, "{\"os_name\":"@ + enc_string(rep.system.os_name@) + ",\"os_version\":"@ + enc_string(rep.system.os_version@) + ",\"host_name\":"@ + enc_string(rep.system.host_name@) + ",\"cpu_info\":"@ + enc_string(rep.system.cpu_info@) + ",\"cpu_physical_cores\":"@ + enc_opt_u32(rep.system.cpu_physical_cores) + ",\"memory_total_bytes\":"@ + dec_str(rep.system.memory_total_bytes as nat) + ",\"memory_used_bytes\":"@ + dec_str(rep.system.memory_used_bytes as nat), ",\"manufacturer\":"@);
    lemma_lit_split(t, sysoff, "{\"os_name\":"@ + enc_string(rep.system.os_name@) + ",\"os_version\":"@ + enc_string(rep.system.os_version@) + ",\"host_name\":"@ + enc_string(rep.system.host_name@) + ",\"cpu_info\":"@ + enc_string(rep.system.cpu_info@) + ",\"cpu_physical_cores\":"@ + enc_opt_u32(rep.system.cpu_physical_cores) + ",\"memory_total_bytes\":"@ + dec_str(rep.system.memory_total_bytes as nat) + ",\"memory_used_bytes\":"@, dec_str(rep.system.memory_used_bytes as nat));
    lemma_lit_split(t, sysoff, "{\"os_name\":"@ + enc_string(rep.system.os_name@) + ",\"os_version\":"@ + enc_string(rep.system.os_version@) + ",\"host_name\":"@ + enc_string(rep.system.host_name@) + ",\"cpu_info\":"@ + enc_string(rep.system.cpu_info@) + ",\"cpu_physical_cores\":"@ + enc_opt_u32(rep.system.cpu_physical_cores) + ",\"memory_total_bytes\":"@ + dec_str(rep.system.memory_total_bytes as nat), ",\"memory_used_bytes\":"@);
    lemma_lit_split(t, sysoff, "{\"os_name\":"@ + enc_string(rep.system.os_name@) + ",\"os_version\":"@ + enc_string(rep.system.os_version@) + ",\"host_name\":"@ + enc_string(rep.system.host_name@) + ",\"cpu_info\":"@ + enc_string(rep.system.cpu_info@) + ",\"cpu_physical_cores\":"@ + enc_opt_u32(rep.system.cpu_physical_cores) + ",\"memory_total_bytes\":"@, dec_str(rep.system.memory_total_bytes as nat));
    lemma_lit_split(t, sysoff, "{\"os_name\":"@ + enc_string(rep.system.os_name@) + ",\"os_version\":"@ + enc_string(rep.system.os_version@) + ",\"host_name\":"@ + enc_string(rep.system.host_name@) + ",\"cpu_info\":"@ + enc_string(rep.system.cpu_info@) + ",\"cpu_physical_cores\":"@ + enc_opt_u32(rep.system.cpu_physical_cores), ",\"memory_total_bytes\":"@);
    lemma_lit_split(t, sysoff, "{\"os_name\":"@ + enc_string(rep.system.os_name@) + ",\"os_version\":"@ + enc_string(rep.system.os_version@) + ",\"host_name\":"@ + enc_string(rep.system.host_name@) + ",\"cpu_info\":"@ + enc_string(rep.system.cpu_info@) + ",\"cpu_physical_cores\":"@, enc_opt_u32(rep.system.cpu_physical_cores));
    lemma_lit_split(t, sysoff, "{\"os_name\":"@ + enc_string(rep.system.os_name@) + ",\"os_version\":"@ + enc_string(rep.system.os_version@) + ",\"host_name\":"@ + enc_string(rep.system.host_name@) + ",\"cpu_info\":"@ + enc_string(rep.system.cpu_info@), ",\"cpu_physical_cores\":"@);
    lemma_lit_split(t, sysoff, "{\"os_name\":"@ + enc_string(rep.system.os_name@) + ",\"os_version\":"@ + enc_string(rep.system.os_version@) + ",\"host_name\":"@ + enc_string(rep.system.host_name@) + ",\"cpu_info\":"@, enc_string(rep.system.cpu_info@));
    lemma_lit_split(t, sysoff, "{\"os_name\":"@ + enc_string(rep.system.os_name@) + ",\"os_version\":"@ + enc_string(rep.system.os_version@) + ",\"host_name\":"@ + enc_string(rep.system.host_name@), ",\"cpu_info\":"@);
    lemma_lit_split(t, sysoff, "{\"os_name\":"@ + enc_string(rep.system.os_name@) + ",\"os_version\":"@ + enc_string(rep.system.os_version@) + ",\"host_name\":"@, enc_string(rep.system.host_name@));
    lemma_lit_split(t, sysoff, "{\"os_name\":"@ + enc_string(rep.system.os_name@) + ",\"os_version\":"@ + enc_string(rep.system.os_version@), ",\"host_name\":"@);
    lemma_lit_split(t, sysoff, "{\"os_name\":"@ + enc_string(rep.system.os_name@) + ",\"os_version\":"@, enc_string(rep.system.os_version@));
    lemma_lit_split(t, sysoff, "{\"os_name\":"@ + enc_string(rep.system.os_name@), ",\"os_version\":"@);
    lemma_lit_split(t, sysoff, "{\"os_name\":"@, enc_string(rep.system.os_name@));
    match rep.system.manufacturer {
        Some(s) => {
            assert(str_at(t, rep_o8(rep), s@));
        },
        None => {
            assert(lit_at(t, rep_o8(rep), null_text()));
        },
    }
    match rep.system.model {
        Some(s) => {
            assert(str_at(t, rep_o9(rep), s@));
        },
        None => {
            assert(lit_at(t, rep_o9(rep), null_text()));
        },
    }
    assert(t[rep_o11(rep)] == ']');
    assert(iface_list_at(t, rep_o10(rep), rep.system.network_interfaces@));
    assert(t[rep_o12(rep) + enc_softwares(rep.software@).len()] == ']');
    assert forall|i: int|
        0 <= i < rep.software@.len() implies ((#[trigger] rep.software@[i].install_date)
        matches Some(ts) ==> ts.wf()) by {
        assert(!all_ws(rep.software@[i].name@));
    }
    assert(soft_list_at(t, rep_o12(rep), rep.software@));
    assert(t[rep_o13(rep) + enc_industrials(rep.industrial@).len()] == ']');
    assert(ind_list_at(t, rep_o13(rep), rep.industrial@));
    assert(t.len() == rep_o14(rep) + 23);
}

/// Where each piece of a well-formed report's wire text sits.
proof fn lemma_rep_slices(t: Seq<char>, rep: SysauditReport)
    requires
        report_at(t, rep),
    ensures
        slices_hold_rep(t, rep),
{
    lemma_rep_slices_open(t, rep);
    lemma_rep_slices_nums(t, rep);
    lemma_rep_slices_tail(t, rep);
}

/// Decodes a report from its canonical wire form: the fixed field order
/// and spacing the encoder produces and the embedded collection script
/// emits. This is deliberately narrower than a general JSON reader: a
/// decoded report always re-encodes to the given text, and the wire form
/// of every well-formed report decodes. The decoded report carries its
/// own fresh strings, so it is pinned by the text it re-encodes to rather
/// than by value identity.
pub fn decode_report(text: &str) -> (r: Option<SysauditReport>)
    ensures
        r matches Some(rep) ==> text@ == enc_report(rep) && rep.timestamp.wf(),
        forall|rep: SysauditReport|
            #![trigger enc_report(rep)]
            (rep.wf() && text@ == enc_report(rep)) ==> r is Some,
{
    let rep = match parse_report(text) {
        Some(rep) => rep,
        None => {
            return None;
        },
    };
    let redone = encode_report(&rep);
    let given = text.to_owned();
    if redone == given {
        Some(rep)
    } else {
        return None;
    }
}

/// Reads the system section's four leading texts.
#[verifier::rlimit(100)]
#[verifier::spinoff_prover]
fn parse_sys_head(v: &Vec<char>) -> (r: Option<(String, String, String, String, usize)>)
    ensures
        r matches Some((_, _, _, _, p)) ==> p <= v@.len(),
        forall|rep: SysauditReport|
            #![trigger enc_report(rep)]
            report_at(v@, rep) ==> (r matches Some((a, b, c, d, p)) && a@ == rep.system.os_name@
                && b@ == rep.system.os_version@ && c@ == rep.system.host_name@ && d@
                == rep.system.cpu_info@ && p == rep_o4(rep) + enc_string(
                rep.system.cpu_info@,
            ).len()),
{
    proof {
        assert forall|rep: SysauditReport|
            #![trigger enc_report(rep)]
            report_at(v@, rep) implies slices_hold_rep(v@, rep) by {
            lemma_rep_slices(v@, rep);
        }
        reveal_strlit("{\"system\":");
        reveal_strlit("{\"os_name\":");
        reveal_strlit("{\"system\":{\"os_name\":");
        reveal_strlit(",\"os_version\":");
        reveal_strlit(",\"host_name\":");
        reveal_strlit(",\"cpu_info\":");
    }
    let p = match at_lit(v, 0, "{\"system\":{\"os_name\":") {
        Some(p) => p,
        None => {
            return None;
        },
    };
    let (os_name, p) = match parse_string(v, p) {
        Some(x) => x,
        None => {
            return None;
        },
    };
    let p = match at_lit(v, p, ",\"os_version\":") {
        Some(p) => p,
        None => {
            return None;
        },
    };
    let (os_version, p) = match parse_string(v, p) {
        Some(x) => x,
        None => {
            return None;
        },
    };
    let p = match at_lit(v, p, ",\"host_name\":") {
        Some(p) => p,
        None => {
            return None;
        },
    };
    let (host_name, p) = match parse_string(v, p) {
        Some(x) => x,
        None => {
            return None;
        },
    };
    let p = match at_lit(v, p, ",\"cpu_info\":") {
        Some(p) => p,
        None => {
            return None;
        },
    };
    let (cpu_info, p) = match parse_string(v, p) {
        Some(x) => x,
        None => {
            return None;
        },
    };
    Some((os_name, os_version, host_name, cpu_info, p))
}

/// Just the number fields' surroundings.
proof fn lemma_nums_slices(t: Seq<char>, rep: SysauditReport)
    requires
        report_at(t, rep),
    ensures
        lit_at(
            t,
            rep_o4(rep) + enc_string(rep.system.cpu_info@).len(),
            ",\"cpu_physical_cores\":"@,
        ),
        opt_u32_at(t, rep_o5(rep), rep.system.cpu_physical_cores),
        lit_at(
            t,
            rep_o5(rep) + enc_opt_u32(rep.system.cpu_physical_cores).len(),
            ",\"memory_total_bytes\":"@,
        ),
        num_at(t, rep_o6(rep), rep.system.memory_total_bytes),
        lit_at(
            t,
            rep_o6(rep) + dec_str(rep.system.memory_total_bytes as nat).len(),
            ",\"memory_used_bytes\":"@,
        ),
        num_at(t, rep_o7(rep), rep.system.memory_used_bytes),
{
    lemma_rep_slices(t, rep);
}

/// Reads the system section's count and memory numbers.
#[verifier::rlimit(100)]
#[verifier::spinoff_prover]
fn parse_sys_nums(v: &Vec<char>, pos: usize) -> (r: Option<(Option<u32>, u64, u64, usize)>)
    ensures
        r matches Some((_, _, _, p2)) ==> p2 <= v@.len(),
        forall|rep: SysauditReport|
            #![trigger enc_report(rep)]
            (report_at(v@, rep) && pos == rep_o4(rep) + enc_string(rep.system.cpu_info@).len())
                ==> (r matches Some((cores, mt, mu, p2)) && enc_opt_u32(cores) == enc_opt_u32(
                rep.system.cpu_physical_cores,
            ) && mt == rep.system.memory_total_bytes && mu == rep.system.memory_used_bytes && p2
                == rep_o7(rep) + dec_str(rep.system.memory_used_bytes as nat).len()),
{
    proof {
        assert forall|rep: SysauditReport|
            #![trigger enc_report(rep)]
            report_at(v@, rep) implies lit_at(
            v@,
            rep_o4(rep) + enc_string(rep.system.cpu_info@).len(),
            ",\"cpu_physical_cores\":"@,
        ) && opt_u32_at(v@, rep_o5(rep), rep.system.cpu_physical_cores) && lit_at(
            v@,
            rep_o5(rep) + enc_opt_u32(rep.system.cpu_physical_cores).len(),
            ",\"memory_total_bytes\":"@,
        ) && num_at(v@, rep_o6(rep), rep.system.memory_total_bytes) && lit_at(
            v@,
            rep_o6(rep) + dec_str(rep.system.memory_total_bytes as nat).len(),
            ",\"memory_used_bytes\":"@,
        ) && num_at(v@, rep_o7(rep), rep.system.memory_used_bytes) by {
            lemma_nums_slices(v@, rep);
        }
        reveal_strlit(",\"cpu_physical_cores\":");
        reveal_strlit(",\"memory_total_bytes\":");
        reveal_strlit(",\"memory_used_bytes\":");
    }
    let q = match at_lit(v, pos, ",\"cpu_physical_cores\":") {
        Some(p) => p,
        None => {
            return None;
        },
    };
    let (cpu_physical_cores, q) = match parse_opt_u32(v, q) {
        Some(x) => x,
        None => {
            return None;
        },
    };
    proof {
        assert forall|rep: SysauditReport|
            #![trigger enc_report(rep)]
            (report_at(v@, rep) && pos == rep_o4(rep) + enc_string(rep.system.cpu_info@).len())
                implies q == rep_o5(rep) + enc_opt_u32(rep.system.cpu_physical_cores).len()
            && enc_opt_u32(cpu_physical_cores) == enc_opt_u32(rep.system.cpu_physical_cores) by {
            match rep.system.cpu_physical_cores {
                Some(c) => {
                    assert(num_at(v@, rep_o5(rep), c as u64));
                    assert((c as u64) as nat == c as nat);
                },
                None => {
                    assert(lit_at(v@, rep_o5(rep), null_text()));
                },
            }
        }
    }
    let q = match at_lit(v, q, ",\"memory_total_bytes\":") {
        Some(p) => p,
        None => {
            return None;
        },
    };
    let (memory_total_bytes, q) = match parse_u64(v, q) {
        Some(x) => x,
        None => {
            return None;
        },
    };
    let q = match at_lit(v, q, ",\"memory_used_bytes\":") {
        Some(p) => p,
        None => {
            return None;
        },
    };
    let (memory_used_bytes, q) = match parse_u64(v, q) {
        Some(x) => x,
        None => {
            return None;
        },
    };
    Some((cpu_physical_cores, memory_total_bytes, memory_used_bytes, q))
}

/// Reads the system section, from the document's start through the
/// section's closing braces.
#[verifier::rlimit(100)]
#[verifier::spinoff_prover]
fn parse_sys(v: &Vec<char>) -> (r: Option<(SystemInfoDto, usize)>)
    ensures
        r matches Some((_, p)) ==> p <= v@.len(),
        forall|rep: SysauditReport|
            #![trigger enc_report(rep)]
            report_at(v@, rep) ==> (r matches Some((sys, p)) && enc_system(sys) == enc_system(
                rep.system,
            ) && p == "{\"system\":"@.len() + enc_system(rep.system).len()),
{
    proof {
        assert forall|rep: SysauditReport|
            #![trigger enc_report(rep)]
            report_at(v@, rep) implies slices_hold_rep(v@, rep) by {
            lemma_rep_slices(v@, rep);
        }
        reveal_strlit("{\"system\":");
        reveal_strlit("{\"os_name\":");
        reveal_strlit("{\"system\":{\"os_name\":");
        reveal_strlit(",\"os_version\":");
        reveal_strlit(",\"host_name\":");
        reveal_strlit(",\"cpu_info\":");
        reveal_strlit(",\"cpu_physical_cores\":");
        reveal_strlit(",\"memory_total_bytes\":");
        reveal_strlit(",\"memory_used_bytes\":");
        reveal_strlit(",\"manufacturer\":");
        reveal_strlit(",\"model\":");
        reveal_strlit(",\"network_interfaces\":[");
        reveal_strlit("]}");
        reveal_strlit("null");
        assert("null"@ =~= null_text());
    }
    let (os_name, os_version, host_name, cpu_info, p) = match parse_sys_head(v) {
        Some(x) => x,
        None => {
            return None;
        },
    };
    let (cpu_physical_cores, memory_total_bytes, memory_used_bytes, p) = match parse_sys_nums(
        v,
        p,
    ) {
        Some(x) => x,
        None => {
            return None;
        },
    };
    let p = match at_lit(v, p, ",\"manufacturer\":") {
        Some(p) => p,
        None => {
            return None;
        },
    };
    let (manufacturer, p) = match parse_opt_string(v, p) {
        Some(x) => x,
        None => {
            return None;
        },
    };
    let p = match at_lit(v, p, ",\"model\":") {
        Some(p) => p,
        None => {
            return None;
        },
    };
    let (model, p) = match parse_opt_string(v, p) {
        Some(x) => x,
        None => {
            return None;
        },
    };
    let p = match at_lit(v, p, ",\"network_interfaces\":[") {
        Some(p) => p,
        None => {
            return None;
        },
    };
    proof {
        assert forall|rep: SysauditReport|
            #![trigger enc_report(rep)]
            report_at(v@, rep) implies p == rep_o10(rep) && iface_list_at(
            v@,
            p as int,
            rep.system.network_interfaces@,
        ) by {}
    }
    let (network_interfaces, p) = match parse_ifaces(v, p) {
        Some(x) => x,
        None => {
            return None;
        },
    };
    let p = match at_lit(v, p, "]}") {
        Some(p) => p,
        None => {
            return None;
        },
    };
    let sys = SystemInfoDto {
        os_name,
        os_version,
        host_name,
        cpu_info,
        cpu_physical_cores,
        memory_total_bytes,
        memory_used_bytes,
        manufacturer,
        model,
        network_interfaces,
    };
    proof {
        assert forall|rep: SysauditReport|
            #![trigger enc_report(rep)]
            report_at(v@, rep) implies enc_system(sys) == enc_system(rep.system) && p
            == "{\"system\":"@.len() + enc_system(rep.system).len() by {
            reveal_strlit("{\"system\":");
            assert(enc_system(sys) =~= enc_system(rep.system));
        }
    }
    Some((sys, p))
}

/// Reads the canonical layout into a report; `decode_report` checks the
/// answer against the text afterwards.
#[verifier::rlimit(100)]
#[verifier::spinoff_prover]
fn parse_report(text: &str) -> (r: Option<SysauditReport>)
    ensures
        r matches Some(rep) ==> rep.timestamp.wf(),
        forall|rep: SysauditReport|
            #![trigger enc_report(rep)]
            report_at(text@, rep) ==> (r matches Some(rep2) && enc_report(rep2) == enc_report(
                rep,
            )),
{
    let v = str_to_chars(text);
    proof {
        assert forall|rep: SysauditReport|
            #![trigger enc_report(rep)]
            report_at(text@, rep) implies report_at(v@, rep) && slices_hold_rep(v@, rep) by {
            lemma_rep_slices(v@, rep);
        }
        reveal_strlit("{\"system\":");
        reveal_strlit(",\"software\":[");
        reveal_strlit("],\"industrial\":[");
        reveal_strlit("],\"timestamp\":");
        reveal_strlit("}");
    }
    let (system, p) = match parse_sys(&v) {
        Some(x) => x,
        None => {
            return None;
        },
    };
    let p = match at_lit(&v, p, ",\"software\":[") {
        Some(p) => p,
        None => {
            return None;
        },
    };
    proof {
        assert forall|rep: SysauditReport|
            #![trigger enc_report(rep)]
            report_at(text@, rep) implies p == rep_o12(rep) && soft_list_at(
            v@,
            p as int,
            rep.software@,
        ) by {}
    }
    let (software, p) = match parse_softwares(&v, p) {
        Some(x) => x,
        None => {
            return None;
        },
    };
    let p = match at_lit(&v, p, "],\"industrial\":[") {
        Some(p) => p,
        None => {
            return None;
        },
    };
    let (industrial, p) = match parse_industrials(&v, p) {
        Some(x) => x,
        None => {
            return None;
        },
    };
    let p = match at_lit(&v, p, "],\"timestamp\":") {
        Some(p) => p,
        None => {
            return None;
        },
    };
    proof {
        assert forall|rep: SysauditReport|
            #![trigger enc_report(rep)]
            report_at(text@, rep) implies p == rep_o14(rep) && rep.timestamp.wf() && lit_at(
            v@,
            p as int,
            enc_instant(rep.timestamp),
        ) by {}
    }
    let (timestamp, p) = match parse_instant(&v, p) {
        Some(x) => x,
        None => {
            return None;
        },
    };
    let p = match at_lit(&v, p, "}") {
        Some(p) => p,
        None => {
            return None;
        },
    };
    if p != v.len() {
        proof {
            assert forall|rep: SysauditReport|
                #![trigger enc_report(rep)]
                !report_at(text@, rep) by {}
        }
        return None;
    }
    let out = SysauditReport { system, software, industrial, timestamp };
    proof {
        assert forall|rep: SysauditReport|
            #![trigger enc_report(rep)]
            report_at(text@, rep) implies enc_report(out) == enc_report(rep) by {
            assert(enc_report(out) =~= enc_report(rep));
        }
    }
    Some(out)
}

} // verus!
