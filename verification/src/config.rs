//! The configuration: its types, its defaults, and the checks and parsing
//! that the configuration file goes through.

use vstd::prelude::*;

use crate::ip::IpAddress;
use crate::text::{
    ascii_upper, chars_of, lemma_split_char_step, parse_u64, parse_u64_spec, push_char,
    split_char, to_ascii_upper, trim, trim_bounds,
};

verus! {

broadcast use vstd::string::group_string_axioms;

/// A DNS record type that the updater keeps current.
#[derive(Debug, Clone, Copy, PartialEq, Eq, Structural, PartialOrd, Ord, Hash)]
pub enum RecordType {
    A,
    Aaaa,
}

/// The name of a record type in DNS and in the history file.
pub open spec fn record_type_name(record_type: RecordType) -> Seq<char> {
    match record_type {
        RecordType::A => seq!['A'],
        RecordType::Aaaa => seq!['A', 'A', 'A', 'A'],
    }
}

/// Whether an address is of the family that a record type holds.
pub open spec fn record_type_matches(record_type: RecordType, ip: IpAddress) -> bool {
    match record_type {
        RecordType::A => ip is V4,
        RecordType::Aaaa => ip is V6,
    }
}

impl RecordType {
    /// The key under which the history file stores this record type.
    pub fn history_key(self) -> (key: &'static str)
        ensures
            key@ == record_type_name(self),
    {
        match self {
            RecordType::A => {
                proof {
                    reveal_strlit("A");
                }
                "A"
            },
            RecordType::Aaaa => {
                proof {
                    reveal_strlit("AAAA");
                }
                "AAAA"
            },
        }
    }

    /// The record type's name as DNS writes it.
    pub fn as_dns_type(self) -> (name: &'static str)
        ensures
            name@ == record_type_name(self),
    {
        self.history_key()
    }

    /// Whether `ip` is an address that a record of this type can hold.
    pub fn matches_ip(self, ip: IpAddress) -> (b: bool)
        ensures
            b == record_type_matches(self, ip),
    {
        match (self, ip) {
            (RecordType::A, IpAddress::V4(_)) => true,
            (RecordType::Aaaa, IpAddress::V6(_)) => true,
            _ => false,
        }
    }
}

/// Errors in the configuration.
#[derive(Debug, PartialEq, Eq)]
pub enum ConfigError {
    /// The configuration names no DNS record.
    NoRecords,
    /// An `A` record is configured, but no IPv4 detector list.
    MissingIpv4Detector(String),
    /// An `AAAA` record is configured, but no IPv6 detector list.
    MissingIpv6Detector(String),
    /// A detector list names no detector.
    EmptyDetectorList,
    /// A record type other than `A` or `AAAA` (given in upper case).
    UnsupportedRecordType(String),
}

/// The record type that `value` names, ignoring ASCII case.
pub open spec fn record_type_spec(value: Seq<char>) -> Option<RecordType> {
    let upper = value.map_values(|c: char| ascii_upper(c));
    if upper == seq!['A'] {
        Some(RecordType::A)
    } else if upper == seq!['A', 'A', 'A', 'A'] {
        Some(RecordType::Aaaa)
    } else {
        None
    }
}

/// Reads a record type, `A` or `AAAA`, in any ASCII case.
pub fn parse_record_type(value: &str) -> (r: Result<RecordType, ConfigError>)
    ensures
        match r {
            Ok(t) => record_type_spec(value@) == Some(t),
            Err(ConfigError::UnsupportedRecordType(s)) => record_type_spec(value@) is None && s@
                == value@.map_values(|c: char| ascii_upper(c)),
            Err(_) => false,
        },
{
    let chars = chars_of(value);
    let mut upper = String::new();
    let mut i: usize = 0;
    while i < chars.len()
        invariant
            0 <= i <= chars@.len(),
            chars@ == value@,
            upper@ == value@.take(i as int).map_values(|c: char| ascii_upper(c)),
        decreases chars@.len() - i,
    {
        let c = to_ascii_upper(chars[i]);
        push_char(&mut upper, c);
        i = i + 1;
        assert(upper@ =~= value@.take(i as int).map_values(|c: char| ascii_upper(c)));
    }
    let ghost up = value@.map_values(|c: char| ascii_upper(c));
    assert(value@.take(chars@.len() as int) =~= value@);
    let n = chars.len();
    if n == 1 && to_ascii_upper(chars[0]) == 'A' {
        assert(up =~= seq!['A']);
        Ok(RecordType::A)
    } else if n == 4 && to_ascii_upper(chars[0]) == 'A' && to_ascii_upper(chars[1]) == 'A'
        && to_ascii_upper(chars[2]) == 'A' && to_ascii_upper(chars[3]) == 'A' {
        assert(up =~= seq!['A', 'A', 'A', 'A']);
        Ok(RecordType::Aaaa)
    } else {
        proof {
            if up == seq!['A'] {
                assert(up[0] == 'A');
            }
            if up == seq!['A', 'A', 'A', 'A'] {
                assert(up[0] == 'A' && up[1] == 'A' && up[2] == 'A' && up[3] == 'A');
            }
        }
        Err(ConfigError::UnsupportedRecordType(upper))
    }
}

impl std::str::FromStr for RecordType {
    type Err = ConfigError;

    fn from_str(value: &str) -> (r: Result<Self, Self::Err>)
        ensures
            match r {
                Ok(t) => record_type_spec(value@) == Some(t),
                Err(ConfigError::UnsupportedRecordType(s)) => record_type_spec(value@) is None
                    && s@ == value@.map_values(|c: char| ascii_upper(c)),
                Err(_) => false,
            },
    {
        parse_record_type(value)
    }
}

/// The dashboard's settings.
pub struct WebConfig {
    pub enabled: bool,
    pub bind: String,
}

impl Default for WebConfig {
    fn default() -> (web: Self)
        ensures
            !web.enabled,
            web.bind@ == default_web_bind_spec(),
    {
        WebConfig { enabled: false, bind: default_web_bind() }
    }
}

/// A comma-separated list of IP detectors.
pub struct IpDetectorListConfig {
    pub provider: String,
}

/// The detector lists for each address family.
pub struct IpDetectorConfig {
    pub ipv4: Option<IpDetectorListConfig>,
    pub ipv6: Option<IpDetectorListConfig>,
}

/// Of pieces of text, the trimmed pieces that are not empty, in order.
pub open spec fn nonempty_trimmed(pieces: Seq<Seq<char>>) -> Seq<Seq<char>>
    decreases pieces.len(),
{
    if pieces.len() == 0 {
        Seq::empty()
    } else {
        let rest = nonempty_trimmed(pieces.drop_last());
        let t = trim(pieces.last());
        if t.len() > 0 {
            rest.push(t)
        } else {
            rest
        }
    }
}

/// The detector names of a comma-separated list: each piece between commas,
/// trimmed, the empty ones left out.
pub open spec fn detector_names(list: Seq<char>) -> Seq<Seq<char>> {
    nonempty_trimmed(split_char(list, ','))
}

pub open spec fn str_views(v: Seq<&str>) -> Seq<Seq<char>> {
    v.map_values(|s: &str| s@)
}

impl IpDetectorListConfig {
    /// The detectors that the list names, in the order written.
    pub fn provider_names(&self) -> (r: Result<Vec<&str>, ConfigError>)
        ensures
            match r {
                Ok(names) => str_views(names@) == detector_names(self.provider@) && names@.len()
                    > 0,
                Err(e) => e == ConfigError::EmptyDetectorList && detector_names(
                    self.provider@,
                ).len() == 0,
            },
    {
        let s = self.provider.as_str();
        let chars = chars_of(s);
        let mut names: Vec<&str> = Vec::new();
        let ghost mut done: Seq<Seq<char>> = Seq::empty();
        let mut start: usize = 0;
        let mut i: usize = 0;
        assert(chars@.take(0) =~= Seq::<char>::empty());
        assert(chars@.subrange(0, 0) =~= Seq::<char>::empty());
        assert(split_char(chars@.take(0), ',') =~= done.push(chars@.subrange(0, 0)));
        while i < chars.len()
            invariant
                chars@ == s@,
                s@ == self.provider@,
                start <= i <= chars@.len(),
                split_char(chars@.take(i as int), ',') == done.push(
                    chars@.subrange(start as int, i as int),
                ),
                str_views(names@) == nonempty_trimmed(done),
            decreases chars@.len() - i,
        {
            proof {
                lemma_split_char_step(chars@, ',', done, start as int, i as int);
            }
            if chars[i] == ',' {
                let (a, b) = trim_bounds(&chars, start, i);
                let ghost piece = chars@.subrange(start as int, i as int);
                let ghost before = names@;
                if a < b {
                    names.push(s.substring_char(a, b));
                    assert(str_views(names@) =~= str_views(before).push(trim(piece)));
                }
                proof {
                    assert(done.push(piece).drop_last() =~= done);
                    done = done.push(piece);
                }
                start = i + 1;
            }
            i = i + 1;
        }
        let (a, b) = trim_bounds(&chars, start, chars.len());
        let ghost piece = chars@.subrange(start as int, chars@.len() as int);
        let ghost before = names@;
        if a < b {
            names.push(s.substring_char(a, b));
            assert(str_views(names@) =~= str_views(before).push(trim(piece)));
        }
        proof {
            assert(done.push(piece).drop_last() =~= done);
            done = done.push(piece);
            assert(chars@.take(chars@.len() as int) =~= chars@);
        }
        if names.len() == 0 {
            Err(ConfigError::EmptyDetectorList)
        } else {
            Ok(names)
        }
    }
}

/// Settings of a record kept at Cloudflare.
pub struct CloudflareRecordConfig {
    pub api_token: Option<String>,
    pub api_token_env: Option<String>,
    pub zone_id: String,
    pub ttl: u32,
    pub proxied: Option<bool>,
}

/// The DNS service that keeps a record.
pub enum DnsBackendConfig {
    Cloudflare(CloudflareRecordConfig),
}

pub open spec fn cloudflare_name() -> Seq<char> {
    seq!['c', 'l', 'o', 'u', 'd', 'f', 'l', 'a', 'r', 'e']
}

impl DnsBackendConfig {
    /// The name of the DNS service.
    pub fn backend_name(&self) -> (name: &'static str)
        ensures
            name@ == cloudflare_name(),
    {
        match self {
            DnsBackendConfig::Cloudflare(_) => {
                proof {
                    reveal_strlit("cloudflare");
                }
                "cloudflare"
            },
        }
    }
}

/// A DNS record to keep current.
pub struct RecordConfig {
    pub name: String,
    pub record_type: RecordType,
    pub backend: DnsBackendConfig,
}

/// The whole configuration. `check_interval` is in seconds.
pub struct Config {
    pub history_file: String,
    pub dry_run: bool,
    pub check_interval: Option<u64>,
    pub history_limit: usize,
    pub web: WebConfig,
    pub ip_detector: IpDetectorConfig,
    pub records: Vec<RecordConfig>,
}

/// Whether a detector list is configured for the family of `record_type`.
pub open spec fn has_detector_for(detectors: IpDetectorConfig, record_type: RecordType) -> bool {
    match record_type {
        RecordType::A => detectors.ipv4 is Some,
        RecordType::Aaaa => detectors.ipv6 is Some,
    }
}

/// The error for a record whose family has no detector list.
pub open spec fn missing_detector_error(record: RecordConfig) -> ConfigError {
    match record.record_type {
        RecordType::A => ConfigError::MissingIpv4Detector(record.name),
        RecordType::Aaaa => ConfigError::MissingIpv6Detector(record.name),
    }
}

/// The first record, from `i` on, whose family has no detector list.
pub open spec fn first_missing_detector(
    records: Seq<RecordConfig>,
    detectors: IpDetectorConfig,
    i: int,
) -> Option<int>
    decreases records.len() - i,
{
    if i >= records.len() {
        None
    } else if !has_detector_for(detectors, records[i].record_type) {
        Some(i)
    } else {
        first_missing_detector(records, detectors, i + 1)
    }
}

/// What checking a configuration gives.
pub open spec fn validate_spec(records: Seq<RecordConfig>, detectors: IpDetectorConfig) -> Result<
    (),
    ConfigError,
> {
    if records.len() == 0 {
        Err(ConfigError::NoRecords)
    } else {
        match first_missing_detector(records, detectors, 0) {
            Some(i) => Err(missing_detector_error(records[i])),
            None => Ok(()),
        }
    }
}

proof fn lemma_first_missing_detector(records: Seq<RecordConfig>, detectors: IpDetectorConfig, i: int)
    requires
        0 <= i <= records.len(),
    ensures
        first_missing_detector(records, detectors, i) is None <==> forall|j: int|
            i <= j < records.len() ==> has_detector_for(detectors, #[trigger] records[j].record_type),
        first_missing_detector(records, detectors, i) matches Some(k) ==> i <= k < records.len()
            && !has_detector_for(detectors, records[k].record_type) && forall|j: int|
            i <= j < k ==> has_detector_for(detectors, #[trigger] records[j].record_type),
    decreases records.len() - i,
{
    if i < records.len() {
        lemma_first_missing_detector(records, detectors, i + 1);
    }
}

impl Config {
    /// Checks that the configuration names a record, and that each record's
    /// address family has a detector list. The first record that has none is
    /// the one reported.
    pub fn validate(&self) -> (r: Result<(), ConfigError>)
        ensures
            r == validate_spec(self.records@, self.ip_detector),
            r is Ok <==> self.records@.len() > 0 && forall|i: int|
                0 <= i < self.records@.len() ==> has_detector_for(
                    self.ip_detector,
                    #[trigger] self.records@[i].record_type,
                ),
    {
        proof {
            lemma_first_missing_detector(self.records@, self.ip_detector, 0);
        }
        if self.records.len() == 0 {
            return Err(ConfigError::NoRecords);
        }
        let mut i: usize = 0;
        while i < self.records.len()
            invariant
                0 <= i <= self.records@.len(),
                self.records@.len() > 0,
                first_missing_detector(self.records@, self.ip_detector, 0)
                    == first_missing_detector(self.records@, self.ip_detector, i as int),
            decreases self.records@.len() - i,
        {
            let record = &self.records[i];
            match record.record_type {
                RecordType::A => {
                    if self.ip_detector.ipv4.is_none() {
                        return Err(ConfigError::MissingIpv4Detector(record.name.clone()));
                    }
                },
                RecordType::Aaaa => {
                    if self.ip_detector.ipv6.is_none() {
                        return Err(ConfigError::MissingIpv6Detector(record.name.clone()));
                    }
                },
            }
            i = i + 1;
        }
        Ok(())
    }
}

/// Law: once a configuration passes its check, the address family of every
/// configured record has a detector list, so an update never lacks one.
pub proof fn law_validated_records_have_detectors(
    records: Seq<RecordConfig>,
    detectors: IpDetectorConfig,
)
    requires
        validate_spec(records, detectors) is Ok,
    ensures
        forall|i: int|
            0 <= i < records.len() ==> has_detector_for(detectors, #[trigger] records[i].record_type),
{
    lemma_first_missing_detector(records, detectors, 0);
}

pub open spec fn default_history_file_spec() -> Seq<char> {
    "ddns-history.txt"@
}

pub open spec fn default_web_bind_spec() -> Seq<char> {
    "127.0.0.1:8080"@
}

pub open spec fn default_api_token_env_spec() -> Seq<char> {
    "CLOUDFLARE_API_TOKEN"@
}

/// The history file used when none is configured.
pub fn default_history_file() -> (f: String)
    ensures
        f@ == default_history_file_spec(),
{
    String::from_str("ddns-history.txt")
}

/// How many entries per record type the history keeps when nothing is configured.
pub fn default_history_limit() -> (n: usize)
    ensures
        n == 10,
{
    10
}

/// The dashboard's address when none is configured.
pub fn default_web_bind() -> (b: String)
    ensures
        b@ == default_web_bind_spec(),
{
    String::from_str("127.0.0.1:8080")
}

/// The TTL of a record when none is configured (1: automatic, at Cloudflare).
pub fn default_ttl() -> (t: u32)
    ensures
        t == 1,
{
    1
}

/// The environment variable that holds the API token when none is configured.
pub fn default_cloudflare_api_token_env() -> (v: Option<String>)
    ensures
        v matches Some(s) && s@ == default_api_token_env_spec(),
{
    Some(String::from_str("CLOUDFLARE_API_TOKEN"))
}

// ---------------------------------------------------------------------------
// Durations

/// Why a duration could not be read.
#[derive(Debug, Clone, Copy, PartialEq, Eq)]
pub enum DurationError {
    /// Fewer than two characters once trimmed.
    TooShort,
    /// The part before the unit is not a `u64`.
    InvalidAmount,
    /// The amount is zero.
    Zero,
    /// The duration in seconds does not fit in a `u64`.
    TooLarge,
    /// The unit is none of `s`, `m`, `h`, `d` in either case.
    UnsupportedUnit,
}

/// Seconds per unit.
pub open spec fn unit_seconds_spec(unit: char) -> Option<u64> {
    if unit == 's' || unit == 'S' {
        Some(1)
    } else if unit == 'm' || unit == 'M' {
        Some(60)
    } else if unit == 'h' || unit == 'H' {
        Some(3600)
    } else if unit == 'd' || unit == 'D' {
        Some(86400)
    } else {
        None
    }
}

/// The inputs on which reading a duration does not panic: once trimmed, the
/// text is empty or ends in an ASCII character (the unit is cut off as the
/// last byte).
pub open spec fn duration_text_splits(value: Seq<char>) -> bool {
    let t = trim(value);
    t.len() == 0 || (t.last() as u32) < 128
}

/// What reading a duration gives, in seconds.
pub open spec fn duration_spec(value: Seq<char>) -> Result<u64, DurationError> {
    let t = trim(value);
    if t.len() < 2 {
        Err(DurationError::TooShort)
    } else {
        match parse_u64_spec(t.drop_last()) {
            None => Err(DurationError::InvalidAmount),
            Some(amount) => if amount == 0 {
                Err(DurationError::Zero)
            } else {
                match unit_seconds_spec(t.last()) {
                    None => Err(DurationError::UnsupportedUnit),
                    Some(per) => if amount * per > u64::MAX {
                        Err(DurationError::TooLarge)
                    } else {
                        Ok((amount * per) as u64)
                    },
                }
            },
        }
    }
}

fn unit_seconds(unit: char) -> (r: Option<u64>)
    ensures
        r == unit_seconds_spec(unit),
{
    if unit == 's' || unit == 'S' {
        Some(1)
    } else if unit == 'm' || unit == 'M' {
        Some(60)
    } else if unit == 'h' || unit == 'H' {
        Some(3600)
    } else if unit == 'd' || unit == 'D' {
        Some(86400)
    } else {
        None
    }
}

/// Reads a duration such as `30s`, `5m`, `1h` or `1d` (unit in either case),
/// giving seconds.
pub fn parse_duration(value: &str) -> (r: Result<u64, DurationError>)
    requires
        duration_text_splits(value@),
    ensures
        r == duration_spec(value@),
{
    let chars = chars_of(value);
    let (a, b) = trim_bounds(&chars, 0, chars.len());
    assert(chars@.subrange(0, chars@.len() as int) =~= value@);
    let ghost t = trim(value@);
    if b - a < 2 {
        return Err(DurationError::TooShort);
    }
    assert(chars@.subrange(a as int, (b - 1) as int) =~= t.drop_last());
    let amount = match parse_u64(&chars, a, b - 1) {
        None => {
            return Err(DurationError::InvalidAmount);
        },
        Some(amount) => amount,
    };
    if amount == 0 {
        return Err(DurationError::Zero);
    }
    assert(chars[b - 1] == t.last());
    match unit_seconds(chars[b - 1]) {
        None => Err(DurationError::UnsupportedUnit),
        Some(per) => match amount.checked_mul(per) {
            None => Err(DurationError::TooLarge),
            Some(seconds) => Ok(seconds),
        },
    }
}

} // verus!
