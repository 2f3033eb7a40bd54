//! Detection of industrial-automation software.
//!
//! The heart of this module is the pure classification engine: an ordered
//! chain of naming rules that turns a raw installed-software record into an
//! identified vendor product, filtered by the set of vendors a scan was
//! configured for.

use crate::collate::{
    adjacent_keys_distinct, dedup_by_key, dedup_spec, lemma_dedup_adjacent, lemma_dedup_sorted,
    lemma_map_values_multiset, sort_by_key, sorted_by_key, TextKey,
};
use crate::error::Error;
use crate::text::{contains_sub, has_sub, lex_le, lower_of, lowercase, opt_view, str_lex_le};
use vstd::prelude::*;

verus! {

/// Industrial software vendor: a closed set of known vendors plus an
/// open-ended escape for arbitrary vendor text. Equality goes by tag, and
/// by the carried text for `Other`.
#[derive(Debug, Clone, PartialEq, Eq)]
pub enum Vendor {
    /// Citect SCADA / AVEVA Plant SCADA
    Citect,
    /// Digifort VMS
    Digifort,
    /// ABB Automation
    ABB,
    /// Rockwell Automation / Allen-Bradley
    Rockwell,
    /// Siemens Industrial
    Siemens,
    /// Schneider Electric
    SchneiderElectric,
    /// Other vendor
    Other(String),
}

impl Vendor {
    /// The vendor's display text; `Other` carries its text verbatim.
    pub fn display_name(&self) -> (r: String)
        ensures
            r@ == self.display_name_spec(),
    {
        match self {
            Vendor::Citect => String::from_str("Citect"),
            Vendor::Digifort => String::from_str("Digifort"),
            Vendor::ABB => String::from_str("ABB"),
            Vendor::Rockwell => String::from_str("Rockwell"),
            Vendor::Siemens => String::from_str("Siemens"),
            Vendor::SchneiderElectric => String::from_str("Schneider Electric"),
            Vendor::Other(name) => name.clone(),
        }
    }

    /// What `display_name` returns, for use in contracts.
    pub open spec fn display_name_spec(&self) -> Seq<char> {
        match self {
            Vendor::Citect => "Citect"@,
            Vendor::Digifort => "Digifort"@,
            Vendor::ABB => "ABB"@,
            Vendor::Rockwell => "Rockwell"@,
            Vendor::Siemens => "Siemens"@,
            Vendor::SchneiderElectric => "Schneider Electric"@,
            Vendor::Other(name) => name@,
        }
    }
}

/// An identified industrial software installation.
#[derive(Debug, Clone, PartialEq)]
pub struct IndustrialSoftware {
    /// Vendor
    pub vendor: Vendor,
    /// Product name, verbatim as discovered
    pub product: String,
    /// Version
    pub version: Option<String>,
    /// Installation path
    pub install_path: Option<String>,
}

/// Scanner for industrial software, configured with the set of vendors
/// whose products a scan reports.
pub struct IndustrialScanner {
    vendors: Vec<Vendor>,
}

impl IndustrialScanner {
    /// The vendors this scanner was configured with, for use in contracts.
    pub closed spec fn vendors_spec(&self) -> Seq<Vendor> {
        self.vendors@
    }

    /// Create a scanner that looks for every known vendor.
    pub fn all_vendors() -> (r: Self)
        ensures
            r.vendors_spec() =~= seq![
                Vendor::Citect,
                Vendor::Digifort,
                Vendor::ABB,
                Vendor::Rockwell,
                Vendor::Siemens,
                Vendor::SchneiderElectric,
            ],
    {
        let mut vendors: Vec<Vendor> = Vec::new();
        vendors.push(Vendor::Citect);
        vendors.push(Vendor::Digifort);
        vendors.push(Vendor::ABB);
        vendors.push(Vendor::Rockwell);
        vendors.push(Vendor::Siemens);
        vendors.push(Vendor::SchneiderElectric);
        IndustrialScanner { vendors }
    }

    /// Create a scanner for the given vendors only.
    pub fn with_vendors(vendors: Vec<Vendor>) -> (r: Self)
        ensures
            r.vendors_spec() == vendors@,
    {
        IndustrialScanner { vendors }
    }

    /// The vendors this scanner was configured with.
    pub fn vendors(&self) -> (r: &Vec<Vendor>)
        ensures
            r@ == self.vendors_spec(),
    {
        &self.vendors
    }
}

impl Default for IndustrialScanner {
    /// The default scanner looks for every known vendor.
    fn default() -> (r: Self)
        ensures
            r.vendors_spec() =~= seq![
                Vendor::Citect,
                Vendor::Digifort,
                Vendor::ABB,
                Vendor::Rockwell,
                Vendor::Siemens,
                Vendor::SchneiderElectric,
            ],
    {
        Self::all_vendors()
    }
}

/// The vendor the ordered rule chain assigns to a lowercased name, before
/// the configured-vendor filter. The first matching rule wins.
pub open spec fn vendor_rule(l: Seq<char>) -> Option<Vendor> {
    if has_sub(l, "citect"@) || (has_sub(l, "aveva"@) && has_sub(l, "scada"@)) {
        Some(Vendor::Citect)
    } else if has_sub(l, "digifort"@) {
        Some(Vendor::Digifort)
    } else if has_sub(l, "abb"@) && (has_sub(l, "automation"@) || has_sub(l, "builder"@)) {
        Some(Vendor::ABB)
    } else if has_sub(l, "rockwell"@) || has_sub(l, "allen-bradley"@) || has_sub(
        l,
        "studio 5000"@,
    ) {
        Some(Vendor::Rockwell)
    } else if has_sub(l, "simatic"@) || has_sub(l, "tia portal"@) || has_sub(l, "wincc"@) {
        Some(Vendor::Siemens)
    } else if has_sub(l, "schneider"@) && has_sub(l, "electric"@) {
        Some(Vendor::SchneiderElectric)
    } else {
        None
    }
}

/// Whether a vendor is a member of a vendor list.
pub open spec fn vendor_in(vs: Seq<Vendor>, v: Vendor) -> bool {
    exists|i: int| 0 <= i < vs.len() && vs[i] == v
}

/// The complete classification outcome for a lowercased name under a vendor
/// filter: the first matching rule's vendor, or nothing when no rule matches
/// or when the matched vendor is filtered out.
pub open spec fn classification_of(l: Seq<char>, vendors: Seq<Vendor>) -> Option<Vendor> {
    match vendor_rule(l) {
        Some(v) => if vendor_in(vendors, v) {
            Some(v)
        } else {
            None
        },
        None => None,
    }
}

/// How a classification result relates to its inputs: a record exactly when
/// the outcome names a vendor, carrying the original name verbatim and the
/// version and path unchanged.
pub open spec fn classify_result_ok(
    r: Option<IndustrialSoftware>,
    outcome: Option<Vendor>,
    name: Seq<char>,
    version: Option<String>,
    install_path: Option<String>,
) -> bool {
    match outcome {
        Some(v) => r matches Some(sw) && sw.vendor == v && sw.product@ == name && opt_view(
            sw.version,
        ) == opt_view(version) && opt_view(sw.install_path) == opt_view(install_path),
        None => r is None,
    }
}

/// Law: when a rule matches but its vendor is not among the allowed ones,
/// the classification is discarded outright; it never falls through to a
/// lower-precedence rule.
pub proof fn lemma_vendor_filter_no_fallthrough(l: Seq<char>, vendors: Seq<Vendor>, v: Vendor)
    requires
        vendor_rule(l) == Some(v),
        !vendor_in(vendors, v),
    ensures
        classification_of(l, vendors) is None,
{
}

/// Classifies one raw installed-software record. Pure and total: the result
/// is a function of the arguments alone, and the product text of a match is
/// the original name, not the lowercased copy used for matching.
pub fn classify_industrial(
    name: &str,
    version: Option<String>,
    install_path: Option<String>,
    vendors: &Vec<Vendor>,
) -> (r: Option<IndustrialSoftware>)
    ensures
        classify_result_ok(
            r,
            classification_of(lower_of(name@), vendors@),
            name@,
            version,
            install_path,
        ),
{
    let lowered = lowercase(name);
    classify_with_lowered(name, lowered.as_str(), version, install_path, vendors)
}

/// The classification logic proper, on a name already folded to lower case.
/// `classify_industrial` is this function applied to the lowercased name.
pub fn classify_with_lowered(
    name: &str,
    name_lower: &str,
    version: Option<String>,
    install_path: Option<String>,
    vendors: &Vec<Vendor>,
) -> (r: Option<IndustrialSoftware>)
    ensures
        classify_result_ok(
            r,
            classification_of(name_lower@, vendors@),
            name@,
            version,
            install_path,
        ),
{
    let rule: Option<Vendor> = if contains_sub(name_lower, "citect") || (contains_sub(
        name_lower,
        "aveva",
    ) && contains_sub(name_lower, "scada")) {
        Some(Vendor::Citect)
    } else if contains_sub(name_lower, "digifort") {
        Some(Vendor::Digifort)
    } else if contains_sub(name_lower, "abb") && (contains_sub(name_lower, "automation")
        || contains_sub(name_lower, "builder")) {
        Some(Vendor::ABB)
    } else if contains_sub(name_lower, "rockwell") || contains_sub(name_lower, "allen-bradley")
        || contains_sub(name_lower, "studio 5000") {
        Some(Vendor::Rockwell)
    } else if contains_sub(name_lower, "simatic") || contains_sub(name_lower, "tia portal")
        || contains_sub(name_lower, "wincc") {
        Some(Vendor::Siemens)
    } else if contains_sub(name_lower, "schneider") && contains_sub(name_lower, "electric") {
        Some(Vendor::SchneiderElectric)
    } else {
        None
    };
    match rule {
        Some(v) => {
            if vendor_in_list(vendors, &v) {
                Some(
                    IndustrialSoftware {
                        vendor: v,
                        product: name.to_owned(),
                        version,
                        install_path,
                    },
                )
            } else {
                None
            }
        },
        None => None,
    }
}

/// Whether two vendors are the same, for needles that are never `Other`.
fn vendor_same(a: &Vendor, b: &Vendor) -> (r: bool)
    requires
        !(b is Other),
    ensures
        r == (*a == *b),
{
    match (a, b) {
        (Vendor::Citect, Vendor::Citect) => true,
        (Vendor::Digifort, Vendor::Digifort) => true,
        (Vendor::ABB, Vendor::ABB) => true,
        (Vendor::Rockwell, Vendor::Rockwell) => true,
        (Vendor::Siemens, Vendor::Siemens) => true,
        (Vendor::SchneiderElectric, Vendor::SchneiderElectric) => true,
        _ => false,
    }
}

/// Whether a vendor that is not `Other` occurs in a vendor list.
fn vendor_in_list(vendors: &Vec<Vendor>, v: &Vendor) -> (r: bool)
    requires
        !(v is Other),
    ensures
        r == vendor_in(vendors@, *v),
{
    let mut i: usize = 0;
    while i < vendors.len()
        invariant
            i <= vendors@.len(),
            !(v is Other),
            forall|j: int| 0 <= j < i ==> vendors@[j] != *v,
        decreases vendors@.len() - i,
    {
        if vendor_same(&vendors[i], v) {
            return true;
        }
        i = i + 1;
    }
    false
}


/// The value content of an industrial record: the vendor tag and the texts
/// it carries.
pub ghost struct RecordV {
    /// Vendor tag
    pub vendor: Vendor,
    /// Product text
    pub product: Seq<char>,
    /// Version text, when present
    pub version: Option<Seq<char>>,
    /// Install path text, when present
    pub install_path: Option<Seq<char>>,
}

impl View for IndustrialSoftware {
    type V = RecordV;

    open spec fn view(&self) -> RecordV {
        RecordV {
            vendor: self.vendor,
            product: self.product@,
            version: opt_view(self.version),
            install_path: opt_view(self.install_path),
        }
    }
}

/// The views of a sequence of industrial records.
pub open spec fn views_of(s: Seq<IndustrialSoftware>) -> Seq<RecordV> {
    s.map_values(|sw: IndustrialSoftware| sw@)
}

impl TextKey for IndustrialSoftware {
    /// Industrial records are ordered and deduplicated by product text.
    open spec fn text_key(&self) -> Seq<char> {
        self.product@
    }

    fn key_le(&self, other: &Self) -> (r: bool) {
        str_lex_le(self.product.as_str(), other.product.as_str())
    }

    fn key_eq(&self, other: &Self) -> (r: bool) {
        self.product == other.product
    }
}

/// One Citect / AVEVA Plant SCADA install as the native probe reads it:
/// a version subkey and its configured path.
#[derive(Debug, Clone)]
pub struct CitectInstall {
    /// The install's version text
    pub version: String,
    /// The install's configured path, when present
    pub ini_path: Option<String>,
}

/// One generic uninstall key's values, as the native sweep reads them.
#[derive(Debug, Clone)]
pub struct UninstallEntry {
    /// The key's display name
    pub display_name: String,
    /// The key's display version, when present
    pub display_version: Option<String>,
    /// The key's install location, when present
    pub install_location: Option<String>,
}

/// What one pass of the native probes read from the machine's registry.
#[derive(Debug, Clone)]
pub struct IndustrialReadings {
    /// Citect SCADA installs
    pub citect_installs: Vec<CitectInstall>,
    /// Whether a Digifort key is present
    pub digifort_present: bool,
    /// Rockwell Software subkey names
    pub rockwell_products: Vec<String>,
    /// Schneider Electric subkey names
    pub schneider_products: Vec<String>,
    /// The generic uninstall keys
    pub uninstall_entries: Vec<UninstallEntry>,
}

/// The view of an optional text filtered of empty values.
pub open spec fn loc_view(o: Option<String>) -> Option<Seq<char>> {
    match o {
        Some(l) => if l@.len() == 0 {
            None
        } else {
            Some(l@)
        },
        None => None,
    }
}

/// The records the Citect probe yields: one per install, named after the
/// product line with the install's version.
pub open spec fn citect_views(installs: Seq<CitectInstall>) -> Seq<RecordV>
    decreases installs.len(),
{
    if installs.len() == 0 {
        Seq::<RecordV>::empty()
    } else {
        citect_views(installs.drop_last()).push(
            RecordV {
                vendor: Vendor::Citect,
                product: "AVEVA Plant SCADA "@ + installs.last().version@,
                version: Some(installs.last().version@),
                install_path: opt_view(installs.last().ini_path),
            },
        )
    }
}

/// The record the Digifort probe yields when its key is present.
pub open spec fn digifort_views(present: bool) -> Seq<RecordV> {
    if present {
        seq![
            RecordV {
                vendor: Vendor::Digifort,
                product: "Digifort VMS"@,
                version: None,
                install_path: None,
            },
        ]
    } else {
        Seq::<RecordV>::empty()
    }
}

/// The records a product-name probe yields for a given vendor: one bare
/// record per name.
pub open spec fn named_views(vendor: Vendor, products: Seq<String>) -> Seq<RecordV>
    decreases products.len(),
{
    if products.len() == 0 {
        Seq::<RecordV>::empty()
    } else {
        named_views(vendor, products.drop_last()).push(
            RecordV {
                vendor,
                product: products.last()@,
                version: None,
                install_path: None,
            },
        )
    }
}

/// The records one vendor's probe yields from the readings. ABB and
/// Siemens products surface through the generic sweep alone.
pub open spec fn probe_views(v: Vendor, rd: IndustrialReadings) -> Seq<RecordV> {
    match v {
        Vendor::Citect => citect_views(rd.citect_installs@),
        Vendor::Digifort => digifort_views(rd.digifort_present),
        Vendor::ABB => Seq::<RecordV>::empty(),
        Vendor::Rockwell => named_views(Vendor::Rockwell, rd.rockwell_products@),
        Vendor::Siemens => Seq::<RecordV>::empty(),
        Vendor::SchneiderElectric => named_views(
            Vendor::SchneiderElectric,
            rd.schneider_products@,
        ),
        Vendor::Other(_) => Seq::<RecordV>::empty(),
    }
}

/// The records of every configured vendor's probe, in configuration order.
pub open spec fn probes_views(vendors: Seq<Vendor>, rd: IndustrialReadings) -> Seq<RecordV>
    decreases vendors.len(),
{
    if vendors.len() == 0 {
        Seq::<RecordV>::empty()
    } else {
        probes_views(vendors.drop_last(), rd) + probe_views(vendors.last(), rd)
    }
}

/// The records the generic uninstall sweep yields: one per entry that the
/// classification engine accepts under the configured vendors.
pub open spec fn sweep_views(entries: Seq<UninstallEntry>, vendors: Seq<Vendor>) -> Seq<RecordV>
    decreases entries.len(),
{
    if entries.len() == 0 {
        Seq::<RecordV>::empty()
    } else {
        let front = sweep_views(entries.drop_last(), vendors);
        let e = entries.last();
        match classification_of(lower_of(e.display_name@), vendors) {
            Some(v) => front.push(
                RecordV {
                    vendor: v,
                    product: e.display_name@,
                    version: opt_view(e.display_version),
                    install_path: loc_view(e.install_location),
                },
            ),
            None => front,
        }
    }
}

/// Everything one collection pass discovers, before ordering: the vendor
/// probes' records in configuration order, then the sweep's records.
pub open spec fn expected_industrial(
    vendors: Seq<Vendor>,
    rd: IndustrialReadings,
) -> Seq<RecordV> {
    probes_views(vendors, rd) + sweep_views(rd.uninstall_entries@, vendors)
}

/// Copies a vendor tag that is not `Other`.
fn clone_unit_vendor(v: &Vendor) -> (r: Vendor)
    requires
        !(v is Other),
    ensures
        r == *v,
{
    match v {
        Vendor::Citect => Vendor::Citect,
        Vendor::Digifort => Vendor::Digifort,
        Vendor::ABB => Vendor::ABB,
        Vendor::Rockwell => Vendor::Rockwell,
        Vendor::Siemens => Vendor::Siemens,
        Vendor::SchneiderElectric => Vendor::SchneiderElectric,
        Vendor::Other(s) => Vendor::Other(s.clone()),
    }
}

/// Copies an optional text.
fn clone_opt(o: &Option<String>) -> (r: Option<String>)
    ensures
        opt_view(r) == opt_view(*o),
{
    match o {
        Some(s) => Some(s.clone()),
        None => None,
    }
}

impl IndustrialScanner {
    /// The Citect probe's records, from the raw installs.
    fn scan_citect(&self, installs: &Vec<CitectInstall>) -> (r: Vec<IndustrialSoftware>)
        ensures
            views_of(r@) == citect_views(installs@),
    {
        let mut out: Vec<IndustrialSoftware> = Vec::new();
        let mut i: usize = 0;
        proof {
            assert(installs@.subrange(0, 0) =~= Seq::<CitectInstall>::empty());
            assert(views_of(out@) =~= citect_views(installs@.subrange(0, 0)));
        }
        while i < installs.len()
            invariant
                i <= installs@.len(),
                views_of(out@) == citect_views(installs@.subrange(0, i as int)),
            decreases installs@.len() - i,
        {
            let product = String::from_str("AVEVA Plant SCADA ").concat(
                installs[i].version.as_str(),
            );
            let version = Some(installs[i].version.clone());
            let install_path = clone_opt(&installs[i].ini_path);
            out.push(IndustrialSoftware { vendor: Vendor::Citect, product, version, install_path });
            proof {
                let pre2 = installs@.subrange(0, i + 1 as int);
                assert(pre2.drop_last() =~= installs@.subrange(0, i as int));
                assert(pre2.last() == installs@[i as int]);
                assert(views_of(out@) =~= citect_views(pre2));
            }
            i = i + 1;
        }
        proof {
            assert(installs@.subrange(0, installs@.len() as int) =~= installs@);
        }
        out
    }

    /// The Digifort probe's record, when the key is present.
    fn scan_digifort(&self, present: bool) -> (r: Vec<IndustrialSoftware>)
        ensures
            views_of(r@) == digifort_views(present),
    {
        let mut out: Vec<IndustrialSoftware> = Vec::new();
        if present {
            out.push(
                IndustrialSoftware {
                    vendor: Vendor::Digifort,
                    product: String::from_str("Digifort VMS"),
                    version: None,
                    install_path: None,
                },
            );
        }
        proof {
            assert(views_of(out@) =~= digifort_views(present));
        }
        out
    }

    /// The ABB probe: ABB products surface through the generic uninstall
    /// sweep, so the dedicated probe yields nothing.
    pub fn scan_abb(&self) -> (r: Vec<IndustrialSoftware>)
        ensures
            r@.len() == 0,
    {
        Vec::new()
    }

    /// The Siemens probe: Siemens products surface through the generic
    /// uninstall sweep, so the dedicated probe yields nothing.
    pub fn scan_siemens(&self) -> (r: Vec<IndustrialSoftware>)
        ensures
            r@.len() == 0,
    {
        Vec::new()
    }

    /// One bare record per discovered product name, for the probes that
    /// read a vendor's own registry tree.
    fn scan_named(&self, vendor: &Vendor, products: &Vec<String>) -> (r: Vec<IndustrialSoftware>)
        requires
            !(vendor is Other),
        ensures
            views_of(r@) == named_views(*vendor, products@),
    {
        let mut out: Vec<IndustrialSoftware> = Vec::new();
        let mut i: usize = 0;
        proof {
            assert(products@.subrange(0, 0) =~= Seq::<String>::empty());
            assert(views_of(out@) =~= named_views(*vendor, products@.subrange(0, 0)));
        }
        while i < products.len()
            invariant
                i <= products@.len(),
                !(vendor is Other),
                views_of(out@) == named_views(*vendor, products@.subrange(0, i as int)),
            decreases products@.len() - i,
        {
            let v = clone_unit_vendor(vendor);
            out.push(
                IndustrialSoftware {
                    vendor: v,
                    product: products[i].clone(),
                    version: None,
                    install_path: None,
                },
            );
            proof {
                let pre2 = products@.subrange(0, i + 1 as int);
                assert(pre2.drop_last() =~= products@.subrange(0, i as int));
                assert(pre2.last() == products@[i as int]);
                assert(views_of(out@) =~= named_views(*vendor, pre2));
            }
            i = i + 1;
        }
        proof {
            assert(products@.subrange(0, products@.len() as int) =~= products@);
        }
        out
    }

    /// The generic sweep: classifies every uninstall entry's display name.
    fn scan_uninstall_keys(&self, entries: &Vec<UninstallEntry>) -> (r: Vec<IndustrialSoftware>)
        ensures
            views_of(r@) == sweep_views(entries@, self.vendors_spec()),
    {
        let mut out: Vec<IndustrialSoftware> = Vec::new();
        let mut i: usize = 0;
        proof {
            assert(entries@.subrange(0, 0) =~= Seq::<UninstallEntry>::empty());
            assert(views_of(out@) =~= sweep_views(entries@.subrange(0, 0), self.vendors_spec()));
        }
        while i < entries.len()
            invariant
                i <= entries@.len(),
                views_of(out@) == sweep_views(entries@.subrange(0, i as int), self.vendors_spec()),
            decreases entries@.len() - i,
        {
            let e = &entries[i];
            let version = clone_opt(&e.display_version);
            let install_path = match &e.install_location {
                Some(l) => {
                    if l.as_str().unicode_len() == 0 {
                        None
                    } else {
                        Some(l.clone())
                    }
                },
                None => None,
            };
            let rec = classify_industrial(e.display_name.as_str(), version, install_path, &self.vendors);
            match rec {
                Some(sw) => {
                    out.push(sw);
                },
                None => {},
            }
            proof {
                let pre2 = entries@.subrange(0, i + 1 as int);
                assert(pre2.drop_last() =~= entries@.subrange(0, i as int));
                assert(pre2.last() == entries@[i as int]);
                assert(views_of(out@) =~= sweep_views(pre2, self.vendors_spec()));
            }
            i = i + 1;
        }
        proof {
            assert(entries@.subrange(0, entries@.len() as int) =~= entries@);
        }
        out
    }

    /// Every record one collection pass discovers, before ordering.
    pub fn collect_candidates(&self, readings: &IndustrialReadings) -> (r: Vec<IndustrialSoftware>)
        ensures
            views_of(r@) == expected_industrial(self.vendors_spec(), *readings),
    {
        let mut cand: Vec<IndustrialSoftware> = Vec::new();
        let mut i: usize = 0;
        proof {
            assert(self.vendors_spec().subrange(0, 0) =~= Seq::<Vendor>::empty());
            assert(views_of(cand@) =~= probes_views(self.vendors_spec().subrange(0, 0), *readings));
        }
        while i < self.vendors.len()
            invariant
                i <= self.vendors_spec().len(),
                views_of(cand@) == probes_views(
                    self.vendors_spec().subrange(0, i as int),
                    *readings,
                ),
            decreases self.vendors_spec().len() - i,
        {
            let ghost old_views = views_of(cand@);
            let mut part: Vec<IndustrialSoftware> = match &self.vendors[i] {
                Vendor::Citect => self.scan_citect(&readings.citect_installs),
                Vendor::Digifort => self.scan_digifort(readings.digifort_present),
                Vendor::ABB => self.scan_abb(),
                Vendor::Rockwell => self.scan_named(
                    &Vendor::Rockwell,
                    &readings.rockwell_products,
                ),
                Vendor::Siemens => self.scan_siemens(),
                Vendor::SchneiderElectric => self.scan_named(
                    &Vendor::SchneiderElectric,
                    &readings.schneider_products,
                ),
                Vendor::Other(_) => Vec::new(),
            };
            let ghost part_views = views_of(part@);
            proof {
                assert(part_views =~= probe_views(self.vendors_spec()[i as int], *readings));
            }
            cand.append(&mut part);
            proof {
                let pre2 = self.vendors_spec().subrange(0, i + 1 as int);
                assert(pre2.drop_last() =~= self.vendors_spec().subrange(0, i as int));
                assert(pre2.last() == self.vendors_spec()[i as int]);
                assert(views_of(cand@) =~= old_views + part_views);
                assert(views_of(cand@) =~= probes_views(pre2, *readings));
            }
            i = i + 1;
        }
        proof {
            assert(self.vendors_spec().subrange(0, self.vendors_spec().len() as int)
                =~= self.vendors_spec());
        }
        let mut swept = self.scan_uninstall_keys(&readings.uninstall_entries);
        let ghost probe_part = views_of(cand@);
        let ghost sweep_part = views_of(swept@);
        cand.append(&mut swept);
        proof {
            assert(views_of(cand@) =~= probe_part + sweep_part);
        }
        cand
    }

    /// One full collection pass: probes and sweep, merged, ordered by
    /// product text ascending, and with neighbouring records that share a
    /// product text collapsed to the first.
    pub fn scan(&self, readings: &IndustrialReadings) -> (r: Result<Vec<IndustrialSoftware>, Error>)
        ensures
            r matches Ok(out) && sorted_by_key(out@) && adjacent_keys_distinct(out@)
                && exists|mid: Seq<IndustrialSoftware>|
                {
                    &&& sorted_by_key(mid)
                    &&& views_of(mid).to_multiset() == expected_industrial(
                        self.vendors_spec(),
                        *readings,
                    ).to_multiset()
                    &&& out@ == #[trigger] dedup_spec(mid)
                },
    {
        let cand = self.collect_candidates(readings);
        let ghost cand0 = cand@;
        let sorted = sort_by_key(cand);
        let ghost mid = sorted@;
        proof {
            lemma_map_values_multiset(mid, cand0, |sw: IndustrialSoftware| sw@);
        }
        let out = dedup_by_key(sorted);
        proof {
            lemma_dedup_adjacent(mid);
            lemma_dedup_sorted(mid);
        }
        Ok(out)
    }
}

} // verus!
