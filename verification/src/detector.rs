//! The public-IP detectors: which ones a list names, which record types each
//! serves, the random order they are tried in, and the fallback between them.

use vstd::prelude::*;

use crate::clock::{clock_now, since_unix_epoch, subsecond_nanos};
use crate::config::{
    detector_names, record_type_matches, str_views, IpDetectorListConfig, RecordType,
};
use crate::dns::{
    build_txt_ch_query, extract_spec, extract_txt_answers, qname_spec, query_header, strings_view,
    txt_ch_question_tail, DnsError,
};
use crate::ip::IpAddress;
use crate::text::{
    ascii_lower, chars_of, first_non_ws, lemma_trim_ends, lemma_trim_of_clean_ends, push_char,
    same_text, to_ascii_lower, trim, trimmed,
};

verus! {

broadcast use vstd::string::group_string_axioms;

/// The detectors the updater knows.
#[derive(Debug, Clone, Copy, PartialEq, Eq, Structural)]
pub enum DetectorKind {
    /// ipify.org, over HTTPS.
    Ipify,
    /// icanhazip.com, over HTTPS.
    Icanhazip,
    /// ip.sb, over HTTPS.
    IpSb,
    /// Cloudflare's `whoami.cloudflare` TXT/CH record, over DNS.
    CloudflareDns,
}

/// Errors in choosing or running detectors.
#[derive(Debug, PartialEq, Eq)]
pub enum DetectorError {
    /// A detector list names no detector.
    EmptyDetectorList,
    /// A detector list names a detector that does not exist (the name as written).
    UnsupportedDetector(String),
    /// A detector returned an address of the other family.
    IpFamilyMismatch { record_type: RecordType, ip: IpAddress },
    /// `cloudflare_dns` was asked for another record than `A`.
    CloudflareDnsNeedsA,
    /// The DNS response carried no TXT answer.
    NoTxtAnswer,
    /// None of the TXT answers is an IP address (the answers).
    NoIpInAnswers(Vec<String>),
    /// Every detector of a list failed (their failures, in the order tried).
    AllDetectorsFailed { record_type: RecordType, failures: Vec<String> },
}

/// The record types a detector serves.
pub open spec fn detector_supports(kind: DetectorKind, record_type: RecordType) -> bool {
    match kind {
        DetectorKind::CloudflareDns => record_type == RecordType::A,
        _ => true,
    }
}

pub open spec fn detector_name_spec(kind: DetectorKind) -> Seq<char> {
    match kind {
        DetectorKind::Ipify => "ipify"@,
        DetectorKind::Icanhazip => "icanhazip"@,
        DetectorKind::IpSb => "ip_sb"@,
        DetectorKind::CloudflareDns => "cloudflare_dns"@,
    }
}

impl DetectorKind {
    /// The detector's name.
    pub fn name(self) -> (name: &'static str)
        ensures
            name@ == detector_name_spec(self),
    {
        match self {
            DetectorKind::Ipify => "ipify",
            DetectorKind::Icanhazip => "icanhazip",
            DetectorKind::IpSb => "ip_sb",
            DetectorKind::CloudflareDns => "cloudflare_dns",
        }
    }

    /// The record types the detector serves, `A` first.
    pub fn supported_record_types(self) -> (types: Vec<RecordType>)
        ensures
            forall|t: RecordType| types@.contains(t) <==> detector_supports(self, t),
            types@.len() >= 1,
            types@[0] == RecordType::A,
            types@.no_duplicates(),
    {
        let mut types = Vec::new();
        types.push(RecordType::A);
        match self {
            DetectorKind::CloudflareDns => {},
            _ => {
                types.push(RecordType::Aaaa);
            },
        }
        proof {
            assert forall|t: RecordType| types@.contains(t) <==> detector_supports(self, t) by {
                if detector_supports(self, t) {
                    match t {
                        RecordType::A => assert(types@[0] == t),
                        RecordType::Aaaa => assert(types@[1] == t),
                    }
                }
            }
        }
        types
    }

    /// Whether the detector serves `record_type`.
    pub fn supports(self, record_type: RecordType) -> (b: bool)
        ensures
            b == detector_supports(self, record_type),
    {
        match self {
            DetectorKind::CloudflareDns => record_type == RecordType::A,
            _ => true,
        }
    }
}

/// How a detector's name is read: ASCII letters in lower case, `.` and `-`
/// as `_`.
pub open spec fn normalize_char(c: char) -> char {
    let l = ascii_lower(c);
    if l == '.' || l == '-' {
        '_'
    } else {
        l
    }
}

/// A detector name as it is looked up: trimmed, then each character normalized.
pub open spec fn normalized_name(name: Seq<char>) -> Seq<char> {
    trim(name).map_values(|c: char| normalize_char(c))
}

/// Normalizes a detector name, so that `IP.SB`, `ip-sb` and `ip_sb` are one.
pub fn normalize_provider_name(name: &str) -> (out: String)
    ensures
        out@ == normalized_name(name@),
{
    let t = trimmed(name);
    let chars = chars_of(t);
    let mut out = String::new();
    let mut i: usize = 0;
    while i < chars.len()
        invariant
            i <= chars@.len(),
            chars@ == trim(name@),
            out@ == chars@.take(i as int).map_values(|c: char| normalize_char(c)),
        decreases chars@.len() - i,
    {
        let l = to_ascii_lower(chars[i]);
        let c = if l == '.' || l == '-' {
            '_'
        } else {
            l
        };
        push_char(&mut out, c);
        i = i + 1;
        assert(out@ =~= chars@.take(i as int).map_values(|c: char| normalize_char(c)));
    }
    assert(chars@.take(chars@.len() as int) =~= chars@);
    out
}

/// Law: normalizing a detector name twice is normalizing it once, so a
/// name already in normal form names the same detector.
pub proof fn law_normalize_idempotent(name: Seq<char>)
    ensures
        normalized_name(normalized_name(name)) == normalized_name(name),
{
    let t = trim(name);
    let n = normalized_name(name);
    lemma_trim_ends(name);
    if n.len() > 0 {
        assert(n[0] == normalize_char(t[0]));
        assert(n.last() == normalize_char(t.last()));
        lemma_trim_of_clean_ends(n);
    } else {
        assert(trim(n) =~= n) by {
            assert(first_non_ws(n, 0, 0) == 0);
        }
    }
    assert(normalized_name(n) =~= n);
}

/// The detector a normalized name stands for.
pub open spec fn detector_for_key(key: Seq<char>) -> Option<DetectorKind> {
    if key == "ipify"@ {
        Some(DetectorKind::Ipify)
    } else if key == "icanhazip"@ {
        Some(DetectorKind::Icanhazip)
    } else if key == "ip_sb"@ {
        Some(DetectorKind::IpSb)
    } else if key == "cloudflare_dns"@ {
        Some(DetectorKind::CloudflareDns)
    } else {
        None
    }
}

/// The detector that `name` names.
pub fn build_detector(name: &str) -> (r: Result<DetectorKind, DetectorError>)
    ensures
        match r {
            Ok(kind) => detector_for_key(normalized_name(name@)) == Some(kind),
            Err(DetectorError::UnsupportedDetector(n)) => detector_for_key(normalized_name(name@))
                is None && n@ == name@,
            Err(_) => false,
        },
{
    let key = normalize_provider_name(name);
    let k = key.as_str();
    if same_text(k, "ipify") {
        Ok(DetectorKind::Ipify)
    } else if same_text(k, "icanhazip") {
        Ok(DetectorKind::Icanhazip)
    } else if same_text(k, "ip_sb") {
        Ok(DetectorKind::IpSb)
    } else if same_text(k, "cloudflare_dns") {
        Ok(DetectorKind::CloudflareDns)
    } else {
        Err(DetectorError::UnsupportedDetector(String::from_str(name)))
    }
}

/// The detectors of a list: each name in order, normalized and looked up.
pub open spec fn detectors_of(names: Seq<Seq<char>>) -> Seq<Option<DetectorKind>> {
    names.map_values(|n: Seq<char>| detector_for_key(normalized_name(n)))
}

/// The detectors that a list names, in the order written. The first name
/// that is no detector is the one reported.
pub fn build_detectors(config: &IpDetectorListConfig) -> (r: Result<Vec<DetectorKind>, DetectorError>)
    ensures
        match r {
            Ok(kinds) => detector_names(config.provider@).len() > 0 && kinds@.len()
                == detector_names(config.provider@).len() && forall|i: int|
                0 <= i < kinds@.len() ==> detectors_of(detector_names(config.provider@))[i]
                    == Some(#[trigger] kinds@[i]),
            Err(DetectorError::EmptyDetectorList) => detector_names(config.provider@).len() == 0,
            Err(DetectorError::UnsupportedDetector(n)) => exists|i: int|
                0 <= i < detector_names(config.provider@).len() && detector_names(
                    config.provider@,
                )[i] == n@ && detectors_of(detector_names(config.provider@))[i] is None
                    && forall|j: int|
                    0 <= j < i ==> #[trigger] detectors_of(detector_names(config.provider@))[j]
                        is Some,
            Err(_) => false,
        },
{
    let names = match config.provider_names() {
        Ok(names) => names,
        Err(_) => {
            return Err(DetectorError::EmptyDetectorList);
        },
    };
    let ghost all = detector_names(config.provider@);
    let mut kinds: Vec<DetectorKind> = Vec::new();
    let mut i: usize = 0;
    while i < names.len()
        invariant
            str_views(names@) == all,
            all == detector_names(config.provider@),
            all.len() > 0,
            i <= names@.len(),
            kinds@.len() == i,
            forall|j: int| 0 <= j < i ==> detectors_of(all)[j] == Some(#[trigger] kinds@[j]),
        decreases names@.len() - i,
    {
        assert(all[i as int] == names@[i as int]@);
        match build_detector(names[i]) {
            Ok(kind) => {
                kinds.push(kind);
            },
            Err(e) => {
                assert forall|j: int| 0 <= j < i implies #[trigger] detectors_of(all)[j] is Some by {
                    assert(detectors_of(all)[j] == Some(kinds@[j]));
                }
                return Err(e);
            },
        }
        i = i + 1;
    }
    Ok(kinds)
}

/// Checks that a detector's address is of the family of the record type.
pub fn ensure_record_type_matches_ip(record_type: RecordType, ip: IpAddress) -> (r: Result<
    IpAddress,
    DetectorError,
>)
    ensures
        record_type_matches(record_type, ip) ==> r == Ok::<IpAddress, DetectorError>(ip),
        !record_type_matches(record_type, ip) ==> r == Err::<IpAddress, DetectorError>(
            DetectorError::IpFamilyMismatch { record_type, ip },
        ),
{
    if record_type.matches_ip(ip) {
        Ok(ip)
    } else {
        Err(DetectorError::IpFamilyMismatch { record_type, ip })
    }
}


// ---------------------------------------------------------------------------
// Random order

/// One step of the xorshift generator.
pub open spec fn next_random_spec(state: u64) -> u64 {
    let a = state ^ (state << 13u64);
    let b = a ^ (a >> 7u64);
    b ^ (b << 17u64)
}

/// The next state of the xorshift generator.
pub fn next_random(state: u64) -> (r: u64)
    ensures
        r == next_random_spec(state),
{
    let mut state = state;
    state = state ^ (state << 13u64);
    state = state ^ (state >> 7u64);
    state = state ^ (state << 17u64);
    state
}

/// The Fisher-Yates shuffle of `order` from `index` down to 1, drawing from
/// the generator after `state`.
pub open spec fn shuffle(order: Seq<usize>, state: u64, index: int) -> Seq<usize>
    decreases index,
{
    if index < 1 || index >= order.len() {
        order
    } else {
        let s = next_random_spec(state);
        let j = ((s as usize) as int) % (index + 1);
        shuffle(order.update(index, order[j]).update(j, order[index]), s, index - 1)
    }
}

/// The indices `0..len`, in order.
pub open spec fn identity_order(len: nat) -> Seq<usize> {
    Seq::new(len, |i: int| i as usize)
}

/// The order in which a list of `len` detectors is tried, for a seed.
pub open spec fn random_order_spec(len: nat, seed: u64) -> Seq<usize> {
    shuffle(identity_order(len), seed, len - 1)
}

/// Whether `order` holds each of `0..len` exactly once.
pub open spec fn is_permutation(order: Seq<usize>, len: nat) -> bool {
    &&& order.len() == len
    &&& forall|i: int| 0 <= i < len ==> #[trigger] order[i] < len
    &&& forall|i: int, j: int| 0 <= i < j < len ==> #[trigger] order[i] != #[trigger] order[j]
}

/// A shuffled order of `0..len`: each index exactly once.
pub fn random_order(len: usize, seed: u64) -> (order: Vec<usize>)
    ensures
        order@ == random_order_spec(len as nat, seed),
        is_permutation(order@, len as nat),
{
    let mut order: Vec<usize> = Vec::new();
    let mut i: usize = 0;
    while i < len
        invariant
            i <= len,
            order@ == identity_order(i as nat),
        decreases len - i,
    {
        order.push(i);
        i = i + 1;
        assert(order@ =~= identity_order(i as nat));
    }
    let mut state = seed;
    let mut k = len;
    while k > 1
        invariant
            0 <= k <= len,
            order@.len() == len,
            random_order_spec(len as nat, seed) == shuffle(order@, state, k - 1),
            is_permutation(order@, len as nat),
        decreases k,
    {
        let index = k - 1;
        state = next_random(state);
        let swap_with = (state as usize) % (index + 1);
        let a = order[index];
        let b = order[swap_with];
        let ghost before = order@;
        order.set(index, b);
        order.set(swap_with, a);
        assert(order@ == before.update(index as int, before[swap_with as int]).update(
            swap_with as int,
            before[index as int],
        ));
        proof {
            assert forall|x: int, y: int| 0 <= x < y < len implies #[trigger] order@[x]
                != #[trigger] order@[y] by {
                let px = if x == index {
                    swap_with as int
                } else if x == swap_with {
                    index as int
                } else {
                    x
                };
                let py = if y == index {
                    swap_with as int
                } else if y == swap_with {
                    index as int
                } else {
                    y
                };
                assert(order@[x] == before[px]);
                assert(order@[y] == before[py]);
                assert(px != py);
                if px < py {
                    assert(before[px] != before[py]);
                } else {
                    assert(before[py] != before[px]);
                }
            }
            assert forall|x: int| 0 <= x < len implies #[trigger] order@[x] < len by {
                if x == index {
                    assert(before[swap_with as int] < len);
                } else if x == swap_with {
                    assert(before[index as int] < len);
                } else {
                    assert(before[x] < len);
                }
            }
        }
        k = k - 1;
    }
    order
}

/// Law: in a shuffled order every detector of the list comes up, so a list
/// fails only once each of its detectors was tried and failed.
pub proof fn law_every_detector_tried(order: Seq<usize>, len: nat, detector: nat)
    requires
        is_permutation(order, len),
        detector < len,
    ensures
        exists|k: int| 0 <= k < len && order[k] == detector,
{
    broadcast use vstd::set::group_set_axioms, vstd::seq_lib::seq_to_set_is_finite;

    let m = order.map_values(|x: usize| x as int);
    assert(m.no_duplicates()) by {
        assert forall|i: int, j: int| 0 <= i < m.len() && 0 <= j < m.len() && i != j implies m[i]
            != m[j] by {
            if i < j {
                assert(order[i] != order[j]);
            } else {
                assert(order[j] != order[i]);
            }
        }
    }
    m.unique_seq_to_set();
    let range = vstd::set_lib::set_int_range(0, len as int);
    vstd::set_lib::lemma_int_range(0, len as int);
    assert(m.to_set().subset_of(range)) by {
        assert forall|x: int| m.to_set().contains(x) implies range.contains(x) by {
            assert(m.contains(x));
            let k = choose|k: int| 0 <= k < m.len() && m[k] == x;
            assert(order[k] < len);
        }
    }
    vstd::set_lib::lemma_subset_equality(m.to_set(), range);
    assert(range.contains(detector as int));
    assert(m.contains(detector as int));
    let k = choose|k: int| 0 <= k < m.len() && m[k] == detector as int;
    assert(order[k] == detector);
}

// ---------------------------------------------------------------------------
// Fallback between detectors

/// Trying the detectors of a list one after another in `order`: `tried` of
/// them have failed so far, with the messages in `failures`.
pub struct Fallback {
    pub order: Vec<usize>,
    pub tried: usize,
    pub failures: Vec<String>,
}

impl Fallback {
    /// One failure noted per detector tried, and no more tried than ordered.
    pub open spec fn wf(self) -> bool {
        self.tried <= self.order@.len() && self.failures@.len() == self.tried
    }

    /// Nothing tried yet.
    pub fn new(order: Vec<usize>) -> (f: Self)
        ensures
            f.wf(),
            f.order@ == order@,
            f.tried == 0,
            f.failures@.len() == 0,
    {
        Fallback { order, tried: 0, failures: Vec::new() }
    }

    /// The detector to try next: the first in the order not yet tried, or
    /// none once each has failed.
    pub fn next_candidate(&self) -> (r: Option<usize>)
        ensures
            r == (if self.tried < self.order@.len() {
                Some(self.order@[self.tried as int])
            } else {
                None::<usize>
            }),
    {
        if self.tried < self.order.len() {
            Some(self.order[self.tried])
        } else {
            None
        }
    }

    /// The candidate failed: note why, and go on to the next one.
    pub fn record_failure(&mut self, failure: String)
        requires
            old(self).tried < old(self).order@.len(),
        ensures
            final(self).order@ == old(self).order@,
            final(self).tried == old(self).tried + 1,
            final(self).failures@ == old(self).failures@.push(failure),
    {
        let n = self.order.len();
        assert(self.tried < n);
        self.tried = self.tried + 1;
        self.failures.push(failure);
    }

    /// The error once every detector has failed.
    pub fn into_error(self, record_type: RecordType) -> (e: DetectorError)
        ensures
            e == (DetectorError::AllDetectorsFailed { record_type, failures: self.failures }),
    {
        DetectorError::AllDetectorsFailed { record_type, failures: self.failures }
    }
}

/// Whether detector `d` of the list came up among those tried.
pub open spec fn was_tried(f: Fallback, d: nat) -> bool {
    exists|k: int| 0 <= k < f.tried && f.order@[k] == d
}

/// Law: a fallback over a shuffled list runs out of candidates only once
/// every detector of the list was tried and failed, one failure noted for
/// each.
pub proof fn law_fallback_exhausts_the_list(f: Fallback, len: nat)
    requires
        f.wf(),
        is_permutation(f.order@, len),
        f.tried >= f.order@.len(),
    ensures
        f.failures@.len() == len,
        forall|d: nat| d < len ==> #[trigger] was_tried(f, d),
{
    assert forall|d: nat| d < len implies #[trigger] was_tried(f, d) by {
        law_every_detector_tried(f.order@, len, d);
    }
}

// ---------------------------------------------------------------------------
// Single detectors

pub open spec fn icanhazip_url_spec(record_type: RecordType) -> Seq<char> {
    match record_type {
        RecordType::A => "https://ipv4.icanhazip.com"@,
        RecordType::Aaaa => "https://ipv6.icanhazip.com"@,
    }
}

/// The icanhazip endpoint for a record type.
pub fn icanhazip_url(record_type: RecordType) -> (url: &'static str)
    ensures
        url@ == icanhazip_url_spec(record_type),
{
    match record_type {
        RecordType::A => "https://ipv4.icanhazip.com",
        RecordType::Aaaa => "https://ipv6.icanhazip.com",
    }
}

pub open spec fn detector_url_spec(kind: DetectorKind, record_type: RecordType) -> Option<Seq<char>> {
    match (kind, record_type) {
        (DetectorKind::Ipify, RecordType::A) => Some("https://api.ipify.org"@),
        (DetectorKind::Ipify, RecordType::Aaaa) => Some("https://api6.ipify.org"@),
        (DetectorKind::Icanhazip, t) => Some(icanhazip_url_spec(t)),
        (DetectorKind::IpSb, RecordType::A) => Some("https://api-ipv4.ip.sb/ip"@),
        (DetectorKind::IpSb, RecordType::Aaaa) => Some("https://api-ipv6.ip.sb/ip"@),
        (DetectorKind::CloudflareDns, _) => None,
    }
}

/// The HTTPS endpoint that an HTTP detector asks for a record type's
/// address, which answers with the address as text; none for
/// `cloudflare_dns`, which asks over DNS.
pub fn detector_url(kind: DetectorKind, record_type: RecordType) -> (url: Option<&'static str>)
    ensures
        match url {
            Some(u) => detector_url_spec(kind, record_type) == Some(u@),
            None => detector_url_spec(kind, record_type) is None,
        },
{
    match (kind, record_type) {
        (DetectorKind::Ipify, RecordType::A) => Some("https://api.ipify.org"),
        (DetectorKind::Ipify, RecordType::Aaaa) => Some("https://api6.ipify.org"),
        (DetectorKind::Icanhazip, t) => Some(icanhazip_url(t)),
        (DetectorKind::IpSb, RecordType::A) => Some("https://api-ipv4.ip.sb/ip"),
        (DetectorKind::IpSb, RecordType::Aaaa) => Some("https://api-ipv6.ip.sb/ip"),
        (DetectorKind::CloudflareDns, _) => None,
    }
}

/// An address found by a detector.
#[derive(Debug, Clone, Copy, PartialEq, Eq)]
pub struct DetectedPublicIp {
    pub detector_name: &'static str,
    pub ip: IpAddress,
}

/// What a detector reports when it found an address.
pub fn detected(kind: DetectorKind, ip: IpAddress) -> (d: DetectedPublicIp)
    ensures
        d.detector_name@ == detector_name_spec(kind),
        d.ip == ip,
{
    DetectedPublicIp { detector_name: kind.name(), ip }
}

/// The first of the addresses, if any is there.
pub open spec fn first_address(parsed: Seq<Option<IpAddress>>) -> Option<IpAddress>
    decreases parsed.len(),
{
    if parsed.len() == 0 {
        None
    } else if parsed[0] is Some {
        parsed[0]
    } else {
        first_address(parsed.drop_first())
    }
}

/// The name that the `cloudflare_dns` detector asks for.
pub open spec fn whoami_name() -> Seq<char> {
    "whoami.cloudflare."@
}

/// The id of a query made from a clock reading: the nanoseconds of the
/// current second cut to 16 bits, or 0 when the clock reads before the Unix
/// epoch (`None`).
pub fn query_id_of(nanos: Option<u32>) -> (id: u16)
    ensures
        id == (match nanos {
            Some(n) => (n % 65536) as u16,
            None => 0u16,
        }),
{
    match nanos {
        Some(n) => (n % 65536) as u16,
        None => 0,
    }
}

/// The id of a query, from the clock (see `query_id_of`). Any `u16` can come
/// out of a clock reading, so nothing more than its type is stated of the
/// result.
pub fn query_id() -> (id: u16) {
    let nanos = match since_unix_epoch(&clock_now()) {
        Ok(duration) => Some(subsecond_nanos(&duration)),
        Err(_) => None,
    };
    query_id_of(nanos)
}

/// The detector that asks Cloudflare's resolver for the TXT record of class
/// CH of `whoami.cloudflare`, which holds the address the query came from
/// (`dig -4 TXT CH +short whoami.cloudflare @one.one.one.one`).
pub struct CloudflareDnsProvider;

impl CloudflareDnsProvider {
    pub fn new() -> (p: Self) {
        CloudflareDnsProvider
    }

    pub fn name(&self) -> (name: &'static str)
        ensures
            name@ == detector_name_spec(DetectorKind::CloudflareDns),
    {
        DetectorKind::CloudflareDns.name()
    }

    /// `A` only.
    pub fn supported_record_types(&self) -> (types: Vec<RecordType>)
        ensures
            types@ == seq![RecordType::A],
    {
        let mut types = Vec::new();
        types.push(RecordType::A);
        types
    }

    /// `cloudflare_dns` answers for `A` records only.
    pub fn check_record_type(&self, record_type: RecordType) -> (r: Result<(), DetectorError>)
        ensures
            r is Ok <==> record_type == RecordType::A,
            r is Err ==> r == Err::<(), DetectorError>(DetectorError::CloudflareDnsNeedsA),
    {
        match record_type {
            RecordType::A => Ok(()),
            RecordType::Aaaa => Err(DetectorError::CloudflareDnsNeedsA),
        }
    }

    /// The query to send, with id `id`.
    pub fn query(&self, id: u16) -> (r: Result<Vec<u8>, DnsError>)
        ensures
            match r {
                Ok(q) => qname_spec(whoami_name()).1 is None && q@ == query_header(id) + qname_spec(
                    whoami_name(),
                ).0 + txt_ch_question_tail(),
                Err(e) => qname_spec(whoami_name()).1 == Some(e),
            },
    {
        build_txt_ch_query(id, "whoami.cloudflare.")
    }

    /// The TXT answers of the response to the query with id `id`.
    pub fn answers(&self, id: u16, response: &[u8]) -> (r: Result<Vec<String>, DnsError>)
        requires
            response@.len() <= isize::MAX,
        ensures
            match r {
                Ok(texts) => extract_spec(id, response@) == Ok::<Seq<Seq<char>>, DnsError>(
                    strings_view(texts@),
                ),
                Err(e) => extract_spec(id, response@) == Err::<Seq<Seq<char>>, DnsError>(e),
            },
    {
        extract_txt_answers(id, response)
    }

    /// The address that the TXT answers give: `parsed[i]` is what answer
    /// `i` reads as, if it is an address. No answer is an error, so is an
    /// answer list with no address, and so is an address of the other family.
    pub fn answer_ip(
        &self,
        record_type: RecordType,
        answers: Vec<String>,
        parsed: &Vec<Option<IpAddress>>,
    ) -> (r: Result<IpAddress, DetectorError>)
        requires
            answers@.len() == parsed@.len(),
        ensures
            answers@.len() == 0 ==> r == Err::<IpAddress, DetectorError>(DetectorError::NoTxtAnswer),
            answers@.len() > 0 ==> match first_address(parsed@) {
                None => r == Err::<IpAddress, DetectorError>(DetectorError::NoIpInAnswers(answers)),
                Some(ip) => if record_type_matches(record_type, ip) {
                    r == Ok::<IpAddress, DetectorError>(ip)
                } else {
                    r == Err::<IpAddress, DetectorError>(
                        DetectorError::IpFamilyMismatch { record_type, ip },
                    )
                },
            },
    {
        if answers.len() == 0 {
            return Err(DetectorError::NoTxtAnswer);
        }
        let mut i: usize = 0;
        assert(parsed@.skip(0) =~= parsed@);
        while i < parsed.len()
            invariant
                i <= parsed@.len(),
                answers@.len() == parsed@.len(),
                answers@.len() > 0,
                first_address(parsed@) == first_address(parsed@.skip(i as int)),
            decreases parsed@.len() - i,
        {
            assert(parsed@.skip(i as int).drop_first() =~= parsed@.skip(i + 1));
            match parsed[i] {
                Some(ip) => {
                    return ensure_record_type_matches_ip(record_type, ip);
                },
                None => {},
            }
            i = i + 1;
        }
        Err(DetectorError::NoIpInAnswers(answers))
    }
}

} // verus!
