//! Installed-software records: pure construction from raw registry key
//! values, install-date parsing, and the scan that orders the records.

use crate::collate::{sort_by_key, sorted_by_key, TextKey};
use crate::date::{valid_date, Date};
use crate::error::Error;
use crate::numtext::{dec_val, digits_in, parse_digits_u32};
use crate::text::{all_ws, is_blank, lower_of, lowercase, opt_view, str_lex_le, str_to_chars};
use vstd::prelude::*;

verus! {

/// Registry hive a software entry was read from.
#[derive(Debug, Clone, Copy, PartialEq, Eq, Structural)]
pub enum RegistrySource {
    /// HKLM 64-bit
    LocalMachine64,
    /// HKLM WOW6432Node (32-bit on 64-bit OS)
    LocalMachine32,
    /// HKCU
    CurrentUser,
}

impl RegistrySource {
    /// The hive's display text.
    pub fn label(&self) -> (r: String)
        ensures
            r@ == self.label_spec(),
    {
        match self {
            RegistrySource::LocalMachine64 => String::from_str("HKLM\\64-bit"),
            RegistrySource::LocalMachine32 => String::from_str("HKLM\\32-bit"),
            RegistrySource::CurrentUser => String::from_str("HKCU"),
        }
    }

    /// What `label` returns, for use in contracts.
    pub open spec fn label_spec(&self) -> Seq<char> {
        match self {
            RegistrySource::LocalMachine64 => "HKLM\\64-bit"@,
            RegistrySource::LocalMachine32 => "HKLM\\32-bit"@,
            RegistrySource::CurrentUser => "HKCU"@,
        }
    }
}

/// An installed software entry.
#[derive(Debug, Clone, PartialEq)]
pub struct Software {
    /// Software name; never blank
    pub name: String,
    /// Version string
    pub version: Option<String>,
    /// Publisher/vendor
    pub publisher: Option<String>,
    /// Installation date
    pub install_date: Option<Date>,
    /// Installation location
    pub install_location: Option<String>,
    /// Registry source
    pub source: RegistrySource,
}

impl TextKey for Software {
    /// Software entries are ordered by their lowercased name.
    open spec fn text_key(&self) -> Seq<char> {
        lower_of(self.name@)
    }

    fn key_le(&self, other: &Self) -> (r: bool) {
        let a = lowercase(self.name.as_str());
        let b = lowercase(other.name.as_str());
        str_lex_le(a.as_str(), b.as_str())
    }

    fn key_eq(&self, other: &Self) -> (r: bool) {
        let a = lowercase(self.name.as_str());
        let b = lowercase(other.name.as_str());
        a == b
    }
}

/// The date parsed from registry install-date text of the shape
/// `YYYYMMDD`; nothing for any other shape or a non-calendar date.
pub open spec fn install_date_of(s: Seq<char>) -> Option<Date> {
    if s.len() == 8 && digits_in(s, 0, 8) {
        let y = dec_val(s.subrange(0, 4));
        let m = dec_val(s.subrange(4, 6));
        let d = dec_val(s.subrange(6, 8));
        if valid_date(y, m, d) {
            Some(Date { year: y as u32, month: m as u32, day: d as u32 })
        } else {
            None
        }
    } else {
        None
    }
}

/// Parses an install date from the registry format `YYYYMMDD`.
pub fn parse_install_date(s: &str) -> (r: Option<Date>)
    ensures
        r == install_date_of(s@),
{
    let cs = str_to_chars(s);
    if cs.len() != 8 {
        return None;
    }
    let y = match parse_digits_u32(&cs, 0, 4) {
        Some(v) => v,
        None => {
            return None;
        },
    };
    let m = match parse_digits_u32(&cs, 4, 6) {
        Some(v) => v,
        None => {
            return None;
        },
    };
    let d = match parse_digits_u32(&cs, 6, 8) {
        Some(v) => v,
        None => {
            return None;
        },
    };
    assert(digits_in(s@, 0, 8));
    proof {
        crate::numtext::lemma_dec_val_upper(s@.subrange(0, 4));
        crate::numtext::lemma_dec_val_upper(s@.subrange(4, 6));
        crate::numtext::lemma_dec_val_upper(s@.subrange(6, 8));
    }
    Date::from_ymd_opt(y, m, d)
}

/// The raw string values of one registry uninstall key, as the native
/// layer hands them over.
#[derive(Debug, Clone)]
pub struct SoftwareKeyValues {
    /// The key's display name value, when present
    pub display_name: Option<String>,
    /// The key's display version value, when present
    pub display_version: Option<String>,
    /// The key's publisher value, when present
    pub publisher: Option<String>,
    /// The key's install location value, when present
    pub install_location: Option<String>,
    /// The key's install date value, when present
    pub install_date: Option<String>,
}

/// The record that a set of raw key values yields: nothing when the display
/// name is absent or blank; otherwise the values carried over, with an empty
/// install location and an unparsable date dropped.
pub open spec fn build_spec(kv: SoftwareKeyValues, source: RegistrySource) -> Option<Software> {
    match kv.display_name {
        Some(name) => if all_ws(name@) {
            None
        } else {
            Some(
                Software {
                    name,
                    version: kv.display_version,
                    publisher: kv.publisher,
                    install_date: (match kv.install_date {
                        Some(ds) => install_date_of(ds@),
                        None => None,
                    }),
                    install_location: (match kv.install_location {
                        Some(loc) => if loc@.len() == 0 {
                            None
                        } else {
                            Some(loc)
                        },
                        None => None,
                    }),
                    source,
                },
            )
        },
        None => None,
    }
}

/// Builds a software entry from raw values. Entries with a blank or absent
/// name are refused; an empty install location and an unparsable date are
/// dropped rather than failing the entry.
pub fn build_software(
    name: String,
    version: Option<String>,
    publisher: Option<String>,
    install_location: Option<String>,
    install_date_str: Option<String>,
    source: RegistrySource,
) -> (r: Option<Software>)
    ensures
        r == build_spec(
            SoftwareKeyValues {
                display_name: Some(name),
                display_version: version,
                publisher,
                install_location,
                install_date: install_date_str,
            },
            source,
        ),
        r is None <==> all_ws(name@),
{
    if is_blank(name.as_str()) {
        return None;
    }
    let install_location = match install_location {
        Some(loc) => {
            if loc.as_str().unicode_len() == 0 {
                None
            } else {
                Some(loc)
            }
        },
        None => None,
    };
    let install_date = match &install_date_str {
        Some(ds) => parse_install_date(ds.as_str()),
        None => None,
    };
    Some(Software { name, version, publisher, install_date, install_location, source })
}

/// Builds a software entry from one uninstall key's raw values; keys
/// without a usable display name yield nothing.
pub fn parse_software_key(kv: SoftwareKeyValues, source: RegistrySource) -> (r: Option<Software>)
    ensures
        r == build_spec(kv, source),
{
    match kv.display_name {
        Some(name) => build_software(
            name,
            kv.display_version,
            kv.publisher,
            kv.install_location,
            kv.install_date,
            source,
        ),
        None => None,
    }
}

/// What one pass over the three uninstall hives read from the registry.
#[derive(Debug, Clone)]
pub struct SoftwareReadings {
    /// HKLM 64-bit uninstall keys
    pub machine64: Vec<SoftwareKeyValues>,
    /// HKLM WOW6432Node uninstall keys
    pub machine32: Vec<SoftwareKeyValues>,
    /// HKCU uninstall keys
    pub user: Vec<SoftwareKeyValues>,
}

/// Scanner for installed software.
pub struct SoftwareScanner {
    user_installs: bool,
    wow32: bool,
}

impl SoftwareScanner {
    /// Whether user-specific installations are scanned, for use in
    /// contracts.
    pub closed spec fn scans_user_installs(&self) -> bool {
        self.user_installs
    }

    /// Whether 32-bit software is scanned, for use in contracts.
    pub closed spec fn scans_32bit(&self) -> bool {
        self.wow32
    }

    /// Create a new scanner with default settings (all sources enabled).
    pub fn new() -> (r: Self)
        ensures
            r.scans_user_installs(),
            r.scans_32bit(),
    {
        SoftwareScanner { user_installs: true, wow32: true }
    }

    /// Turn the scanning of user-specific installations on or off.
    pub fn with_user_installs(self, enabled: bool) -> (r: Self)
        ensures
            r.scans_user_installs() == enabled,
            r.scans_32bit() == self.scans_32bit(),
    {
        SoftwareScanner { user_installs: enabled, ..self }
    }

    /// Turn the scanning of 32-bit software on a 64-bit OS on or off.
    pub fn with_32bit(self, enabled: bool) -> (r: Self)
        ensures
            r.scans_32bit() == enabled,
            r.scans_user_installs() == self.scans_user_installs(),
    {
        SoftwareScanner { wow32: enabled, ..self }
    }

    /// Builds the software inventory from one pass of raw registry
    /// readings: every usable key of every hive turned on becomes a record,
    /// ordered by lowercased name.
    pub fn scan(&self, readings: SoftwareReadings) -> (r: Result<Vec<Software>, Error>)
        ensures
            r matches Ok(out) && out@.to_multiset() == expected_software(
                readings.machine64@,
                readings.machine32@,
                readings.user@,
                self.scans_32bit(),
                self.scans_user_installs(),
            ).to_multiset() && sorted_by_key(out@),
    {
        let SoftwareReadings { machine64, machine32, user } = readings;
        let ghost ms = machine64@;
        let ghost m32 = machine32@;
        let ghost us = user@;
        let mut merged: Vec<Software> = hive_records(machine64, RegistrySource::LocalMachine64);
        if self.wow32 {
            let mut part = hive_records(machine32, RegistrySource::LocalMachine32);
            merged.append(&mut part);
        }
        if self.user_installs {
            let mut part = hive_records(user, RegistrySource::CurrentUser);
            merged.append(&mut part);
        }
        proof {
            if !self.scans_32bit() || !self.scans_user_installs() {
                assert(merged@ =~= expected_software(
                    ms,
                    m32,
                    us,
                    self.scans_32bit(),
                    self.scans_user_installs(),
                ));
            }
        }
        let out = sort_by_key(merged);
        Ok(out)
    }
}

impl Default for SoftwareScanner {
    /// The default scanner reads every hive.
    fn default() -> (r: Self)
        ensures
            r.scans_user_installs(),
            r.scans_32bit(),
    {
        Self::new()
    }
}

/// The unordered inventory that one pass of readings yields: the records of
/// each hive that is turned on, in hive order.
pub open spec fn expected_software(
    machine64: Seq<SoftwareKeyValues>,
    machine32: Seq<SoftwareKeyValues>,
    user: Seq<SoftwareKeyValues>,
    scan_32bit: bool,
    scan_user: bool,
) -> Seq<Software> {
    hive_spec(machine64, RegistrySource::LocalMachine64) + (if scan_32bit {
        hive_spec(machine32, RegistrySource::LocalMachine32)
    } else {
        Seq::<Software>::empty()
    }) + (if scan_user {
        hive_spec(user, RegistrySource::CurrentUser)
    } else {
        Seq::<Software>::empty()
    })
}

/// The records that one hive's keys yield, in key order.
pub open spec fn hive_spec(keys: Seq<SoftwareKeyValues>, source: RegistrySource) -> Seq<Software>
    decreases keys.len(),
{
    if keys.len() == 0 {
        Seq::<Software>::empty()
    } else {
        let front = hive_spec(keys.drop_last(), source);
        match build_spec(keys.last(), source) {
            Some(sw) => front.push(sw),
            None => front,
        }
    }
}

/// The records built from one hive's keys, in key order.
fn hive_records(keys: Vec<SoftwareKeyValues>, source: RegistrySource) -> (r: Vec<Software>)
    ensures
        r@ == hive_spec(keys@, source),
{
    let ghost keys0 = keys@;
    let mut rest = keys;
    let mut out: Vec<Software> = Vec::new();
    let ghost mut done: int = 0;
    proof {
        assert(rest@ =~= keys0.subrange(0, keys0.len() as int));
        assert(keys0.subrange(0, 0) =~= Seq::<SoftwareKeyValues>::empty());
    }
    while rest.len() > 0
        invariant
            0 <= done <= keys0.len(),
            rest@ == keys0.subrange(done, keys0.len() as int),
            out@ == hive_spec(keys0.subrange(0, done), source),
        decreases rest@.len(),
    {
        let kv = rest.remove(0);
        assert(kv == keys0[done]);
        proof {
            assert(rest@ =~= keys0.subrange(done + 1, keys0.len() as int));
            let pre2 = keys0.subrange(0, done + 1);
            assert(pre2.drop_last() =~= keys0.subrange(0, done));
            assert(pre2.last() == keys0[done]);
        }
        match parse_software_key(kv, source) {
            Some(sw) => {
                out.push(sw);
            },
            None => {},
        }
        proof {
            done = done + 1;
        }
    }
    proof {
        assert(keys0.subrange(0, keys0.len() as int) =~= keys0);
    }
    out
}

} // verus!
