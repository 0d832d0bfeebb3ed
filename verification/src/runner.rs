//! The decisions of an update run: which detector list serves a record type,
//! whether the lists fit their families, which record types are updated,
//! whether an address changed, and when the history advances.

use vstd::prelude::*;

use crate::config::{Config, IpDetectorListConfig, RecordConfig, RecordType};
use crate::detector::{
    build_detectors, detector_supports, detectors_of, DetectorError, DetectorKind,
};
use crate::config::detector_names;
use crate::history::{entries_of, kept_newest, History, HistoryEntry};
use crate::ip::IpAddress;

verus! {

/// Errors of an update run.
#[derive(Debug, PartialEq, Eq)]
pub enum RunError {
    /// No detector list is configured for the family of this record type.
    DetectorNotConfigured(RecordType),
    /// A detector list could not be read.
    Detector(DetectorError),
    /// A detector in the list of this record type's family cannot serve it.
    DetectorDoesNotServe { record_type: RecordType, detector: DetectorKind },
    /// Some records of a type could not be written; the history stays as it was.
    RecordUpdatesFailed(Vec<String>),
    /// Some record types failed to update.
    UpdateFailed(Vec<String>),
}

/// The detector list that serves a record type.
pub fn ip_detector_config(config: &Config, record_type: RecordType) -> (r: Result<
    &IpDetectorListConfig,
    RunError,
>)
    ensures
        match record_type {
            RecordType::A => match config.ip_detector.ipv4 {
                Some(list) => r matches Ok(l) && *l == list,
                None => r == Err::<&IpDetectorListConfig, RunError>(
                    RunError::DetectorNotConfigured(RecordType::A),
                ),
            },
            RecordType::Aaaa => match config.ip_detector.ipv6 {
                Some(list) => r matches Ok(l) && *l == list,
                None => r == Err::<&IpDetectorListConfig, RunError>(
                    RunError::DetectorNotConfigured(RecordType::Aaaa),
                ),
            },
        },
{
    match record_type {
        RecordType::A => match &config.ip_detector.ipv4 {
            Some(list) => Ok(list),
            None => Err(RunError::DetectorNotConfigured(RecordType::A)),
        },
        RecordType::Aaaa => match &config.ip_detector.ipv6 {
            Some(list) => Ok(list),
            None => Err(RunError::DetectorNotConfigured(RecordType::Aaaa)),
        },
    }
}

/// Whether every name of a list is a detector.
pub open spec fn all_detectors_known(names: Seq<Seq<char>>) -> bool {
    forall|i: int| 0 <= i < names.len() ==> #[trigger] detectors_of(names)[i] is Some
}

/// Whether every detector of a list serves `record_type`.
pub open spec fn all_detectors_serve(names: Seq<Seq<char>>, record_type: RecordType) -> bool {
    forall|i: int|
        0 <= i < names.len() ==> detector_supports(
            #[trigger] detectors_of(names)[i]->0,
            record_type,
        )
}

/// Whether a detector list can be used for a record type: it names at least
/// one detector, only known ones, and each serves the record type.
pub open spec fn placement_ok(list: IpDetectorListConfig, record_type: RecordType) -> bool {
    let names = detector_names(list.provider@);
    &&& names.len() > 0
    &&& all_detectors_known(names)
    &&& all_detectors_serve(names, record_type)
}

/// What an error of a placement check says of the list.
pub open spec fn placement_error_fits(
    list: IpDetectorListConfig,
    record_type: RecordType,
    e: RunError,
) -> bool {
    let names = detector_names(list.provider@);
    match e {
        RunError::Detector(DetectorError::EmptyDetectorList) => names.len() == 0,
        RunError::Detector(DetectorError::UnsupportedDetector(n)) => exists|i: int|
            0 <= i < names.len() && names[i] == n@ && detectors_of(names)[i] is None && forall|
                j: int,
            |
                0 <= j < i ==> #[trigger] detectors_of(names)[j] is Some,
        RunError::DetectorDoesNotServe { record_type: t, detector: k } => {
            &&& t == record_type
            &&& names.len() > 0
            &&& all_detectors_known(names)
            &&& exists|i: int|
                0 <= i < names.len() && detectors_of(names)[i] == Some(k) && !detector_supports(
                    k,
                    record_type,
                ) && forall|j: int|
                    0 <= j < i ==> detector_supports(
                        #[trigger] detectors_of(names)[j]->0,
                        record_type,
                    )
        },
        _ => false,
    }
}

/// Checks that each detector of a list serves the record type it is
/// configured for; the first one that does not is reported.
pub fn ensure_ip_detector_supports(list: &IpDetectorListConfig, record_type: RecordType) -> (r: Result<
    (),
    RunError,
>)
    ensures
        r is Ok <==> placement_ok(*list, record_type),
        r matches Err(e) ==> placement_error_fits(*list, record_type, e),
{
    let ghost names = detector_names(list.provider@);
    let kinds = match build_detectors(list) {
        Ok(kinds) => kinds,
        Err(e) => {
            return Err(RunError::Detector(e));
        },
    };
    assert(all_detectors_known(names)) by {
        assert forall|i: int| 0 <= i < names.len() implies #[trigger] detectors_of(names)[i]
            is Some by {
            assert(detectors_of(names)[i] == Some(kinds@[i]));
        }
    }
    let mut i: usize = 0;
    while i < kinds.len()
        invariant
            names == detector_names(list.provider@),
            names.len() > 0,
            kinds@.len() == names.len(),
            forall|j: int| 0 <= j < kinds@.len() ==> detectors_of(names)[j] == Some(#[trigger] kinds@[j]),
            all_detectors_known(names),
            i <= kinds@.len(),
            forall|j: int|
                0 <= j < i ==> detector_supports(#[trigger] detectors_of(names)[j]->0, record_type),
        decreases kinds@.len() - i,
    {
        let kind = kinds[i];
        assert(detectors_of(names)[i as int] == Some(kind));
        if !kind.supports(record_type) {
            return Err(RunError::DetectorDoesNotServe { record_type, detector: kind });
        }
        i = i + 1;
    }
    Ok(())
}

pub open spec fn ipv4_placement_error(list: Option<IpDetectorListConfig>, e: RunError) -> bool {
    list matches Some(l) && placement_error_fits(l, RecordType::A, e)
}

pub open spec fn ipv6_placement_error(list: Option<IpDetectorListConfig>, e: RunError) -> bool {
    list matches Some(l) && placement_error_fits(l, RecordType::Aaaa, e)
}

/// Checks the IPv4 list against `A` and the IPv6 list against `AAAA`, in
/// that order.
pub fn validate_ip_detector_placement(config: &Config) -> (r: Result<(), RunError>)
    ensures
        r is Ok <==> (config.ip_detector.ipv4 matches Some(l) ==> placement_ok(l, RecordType::A))
            && (config.ip_detector.ipv6 matches Some(l) ==> placement_ok(l, RecordType::Aaaa)),
        r matches Err(e) ==> ipv4_placement_error(config.ip_detector.ipv4, e) || (
        (config.ip_detector.ipv4 matches Some(l) ==> placement_ok(l, RecordType::A))
            && ipv6_placement_error(config.ip_detector.ipv6, e)),
{
    if let Some(list) = &config.ip_detector.ipv4 {
        ensure_ip_detector_supports(list, RecordType::A)?;
    }
    if let Some(list) = &config.ip_detector.ipv6 {
        ensure_ip_detector_supports(list, RecordType::Aaaa)?;
    }
    Ok(())
}

/// Whether some record has this type.
pub open spec fn has_record_of_type(records: Seq<RecordConfig>, record_type: RecordType) -> bool {
    exists|i: int| 0 <= i < records.len() && #[trigger] records[i].record_type == record_type
}

/// The record types that an update run visits: each type of a configured
/// record once, `A` before `AAAA`.
pub open spec fn update_record_types(records: Seq<RecordConfig>) -> Seq<RecordType> {
    (if has_record_of_type(records, RecordType::A) {
        seq![RecordType::A]
    } else {
        Seq::empty()
    }) + (if has_record_of_type(records, RecordType::Aaaa) {
        seq![RecordType::Aaaa]
    } else {
        Seq::empty()
    })
}

/// The record types of the configured records, each once, `A` first.
pub fn distinct_record_types(records: &Vec<RecordConfig>) -> (types: Vec<RecordType>)
    ensures
        types@ == update_record_types(records@),
{
    let mut has_a = false;
    let mut has_aaaa = false;
    let mut i: usize = 0;
    while i < records.len()
        invariant
            i <= records@.len(),
            has_a <==> exists|j: int|
                0 <= j < i && #[trigger] records@[j].record_type == RecordType::A,
            has_aaaa <==> exists|j: int|
                0 <= j < i && #[trigger] records@[j].record_type == RecordType::Aaaa,
        decreases records@.len() - i,
    {
        match records[i].record_type {
            RecordType::A => {
                has_a = true;
            },
            RecordType::Aaaa => {
                has_aaaa = true;
            },
        }
        i = i + 1;
    }
    let mut types = Vec::new();
    if has_a {
        types.push(RecordType::A);
    }
    if has_aaaa {
        types.push(RecordType::Aaaa);
    }
    assert(types@ =~= update_record_types(records@));
    types
}

/// Law: an update visits a record type exactly when some configured record
/// has that type, each such type once, `A` before `AAAA`.
pub proof fn law_update_visits_configured_types(records: Seq<RecordConfig>)
    ensures
        forall|t: RecordType|
            update_record_types(records).contains(t) <==> exists|i: int|
                0 <= i < records.len() && #[trigger] records[i].record_type == t,
        update_record_types(records).no_duplicates(),
        update_record_types(records).len() == 2 ==> update_record_types(records)[0]
            == RecordType::A && update_record_types(records)[1] == RecordType::Aaaa,
{
    let types = update_record_types(records);
    assert forall|t: RecordType|
        types.contains(t) <==> exists|i: int|
            0 <= i < records.len() && #[trigger] records[i].record_type == t by {
        if types.contains(t) {
            let k = choose|k: int| 0 <= k < types.len() && types[k] == t;
            match t {
                RecordType::A => assert(has_record_of_type(records, RecordType::A)),
                RecordType::Aaaa => assert(has_record_of_type(records, RecordType::Aaaa)),
            }
        }
        if exists|i: int| 0 <= i < records.len() && #[trigger] records[i].record_type == t {
            match t {
                RecordType::A => {
                    assert(has_record_of_type(records, RecordType::A));
                    assert(types[0] == RecordType::A);
                },
                RecordType::Aaaa => {
                    assert(has_record_of_type(records, RecordType::Aaaa));
                    assert(types[types.len() - 1] == RecordType::Aaaa);
                },
            }
        }
    }
}

/// The indices of the records of a type, in order.
pub open spec fn record_indices_of_type(records: Seq<RecordConfig>, record_type: RecordType) -> Seq<
    usize,
>
    decreases records.len(),
{
    if records.len() == 0 {
        Seq::empty()
    } else {
        let rest = record_indices_of_type(records.drop_last(), record_type);
        if records.last().record_type == record_type {
            rest.push((records.len() - 1) as usize)
        } else {
            rest
        }
    }
}

/// The records of a type that an update writes, by index, in order.
pub fn records_of_type(records: &Vec<RecordConfig>, record_type: RecordType) -> (indices: Vec<
    usize,
>)
    ensures
        indices@ == record_indices_of_type(records@, record_type),
{
    let mut indices = Vec::new();
    let mut i: usize = 0;
    while i < records.len()
        invariant
            i <= records@.len(),
            indices@ == record_indices_of_type(records@.take(i as int), record_type),
        decreases records@.len() - i,
    {
        assert(records@.take(i + 1).drop_last() =~= records@.take(i as int));
        if records[i].record_type == record_type {
            indices.push(i);
        }
        i = i + 1;
    }
    assert(records@.take(records@.len() as int) =~= records@);
    indices
}

/// Whether an update run writes DNS and history: not if the command line
/// or the configuration asks for a dry run.
pub fn is_dry_run(cli_dry_run: bool, config: &Config) -> (b: bool)
    ensures
        b == (cli_dry_run || config.dry_run),
{
    cli_dry_run || config.dry_run
}

/// Whether the detected address differs from the last one in the history.
pub fn ip_changed(previous: Option<IpAddress>, current: IpAddress) -> (b: bool)
    ensures
        b == (previous != Some(current)),
{
    match previous {
        Some(p) => p != current,
        None => true,
    }
}

/// Whether the history of one record type is left exactly as it was.
pub open spec fn history_unchanged(after: History, before: History) -> bool {
    forall|t: RecordType| entries_of(after, t) == entries_of(before, t)
}

/// Whether the history has `entry` recorded as the newest of `record_type`,
/// keeping `limit` entries of that type, the other type untouched.
pub open spec fn history_advanced(
    after: History,
    before: History,
    record_type: RecordType,
    entry: HistoryEntry,
    limit: nat,
) -> bool {
    &&& entries_of(after, record_type) == kept_newest(
        entries_of(before, record_type).push(entry),
        limit,
    )
    &&& forall|t: RecordType| t != record_type ==> entries_of(after, t) == entries_of(before, t)
}

/// Ends the update of one record type once its records were written, with
/// the writes that failed in `failures`. If any failed, the failures are
/// reported and the history is left as it was. Otherwise, unless this is a
/// dry run, `ip` becomes the type's newest address, recorded at
/// `changed_at`. The result says whether the history advanced: it does
/// exactly when every record was written and this is no dry run.
pub fn finish_record_type(
    history: &mut History,
    record_type: RecordType,
    ip: IpAddress,
    changed_at: u64,
    limit: usize,
    failures: Vec<String>,
    dry_run: bool,
) -> (r: Result<bool, RunError>)
    ensures
        failures@.len() > 0 ==> r == Err::<bool, RunError>(RunError::RecordUpdatesFailed(failures)),
        failures@.len() == 0 ==> r == Ok::<bool, RunError>(!dry_run),
        r == Ok::<bool, RunError>(true) ==> history_advanced(
            *final(history),
            *old(history),
            record_type,
            HistoryEntry { ip, changed_at },
            limit as nat,
        ),
        r != Ok::<bool, RunError>(true) ==> history_unchanged(*final(history), *old(history)),
{
    if failures.len() > 0 {
        Err(RunError::RecordUpdatesFailed(failures))
    } else if dry_run {
        Ok(false)
    } else {
        history.set(record_type, ip, changed_at, limit);
        Ok(true)
    }
}

/// What an update does with a record whose address changed.
#[derive(Debug, Clone, Copy, PartialEq, Eq, Structural)]
pub enum RecordWrite {
    /// Only log the change it would make (a dry run writes no DNS record).
    Planned,
    /// Write the record through its DNS backend.
    Write,
}

/// A dry run plans each record's change without writing it; otherwise the
/// record is written.
pub fn record_write(dry_run: bool) -> (w: RecordWrite)
    ensures
        w == (if dry_run {
            RecordWrite::Planned
        } else {
            RecordWrite::Write
        }),
{
    if dry_run {
        RecordWrite::Planned
    } else {
        RecordWrite::Write
    }
}

/// Whether the history file is written at the end of a run.
pub fn history_needs_saving(dry_run: bool, history_changed: bool) -> (b: bool)
    ensures
        b == (!dry_run && history_changed),
{
    !dry_run && history_changed
}

/// The outcome of a whole run from the failures of its record types.
pub fn finish_update(failures: Vec<String>) -> (r: Result<(), RunError>)
    ensures
        failures@.len() == 0 ==> r is Ok,
        failures@.len() > 0 ==> r == Err::<(), RunError>(RunError::UpdateFailed(failures)),
{
    if failures.len() == 0 {
        Ok(())
    } else {
        Err(RunError::UpdateFailed(failures))
    }
}

// ---------------------------------------------------------------------------
// The run loop

/// What the run loop waits for: the interval elapsed, or the configuration
/// file's modified time (nanoseconds since the Unix epoch, if known) changed
/// to the one given.
#[derive(Debug, Clone, Copy, PartialEq, Eq, Structural)]
pub enum LoopEvent {
    Tick,
    ConfigChanged(Option<u128>),
}

/// What the run loop does next.
#[derive(Debug, Clone, Copy, PartialEq, Eq, Structural)]
pub enum LoopStep {
    /// Run an update with the configuration in hand.
    Update,
    /// Read the configuration file again.
    Reload,
}

/// The step for an event: an update on a tick, a reload when the
/// configuration file changed.
pub fn next_step(event: &LoopEvent) -> (s: LoopStep)
    ensures
        *event is Tick ==> s == LoopStep::Update,
        *event is ConfigChanged ==> s == LoopStep::Reload,
{
    match event {
        LoopEvent::Tick => LoopStep::Update,
        LoopEvent::ConfigChanged(_) => LoopStep::Reload,
    }
}

/// Whether the configuration file changed: its modified time now differs
/// from the one watched (a time becoming known or unknown counts).
pub fn config_changed(last: Option<u128>, now: Option<u128>) -> (b: bool)
    ensures
        b == (now != last),
{
    match (last, now) {
        (Some(a), Some(b)) => a != b,
        (None, None) => false,
        _ => true,
    }
}

/// After a reload that the file's change at modified time `seen` caused:
/// `reloaded` is the modified time read along with the new configuration, or
/// none when the reload failed. A good reload replaces the configuration,
/// watches its modified time and asks for an update; a failed one keeps the
/// old configuration and watches `seen`, so the same file is not read again
/// until it changes once more. The result says whether to update.
pub fn after_reload(watched: &mut Option<u128>, reloaded: Option<Option<u128>>, seen: Option<
    u128,
>) -> (update: bool)
    ensures
        reloaded matches Some(m) ==> update && *final(watched) == m,
        reloaded is None ==> !update && *final(watched) == seen,
{
    match reloaded {
        Some(m) => {
            *watched = m;
            true
        },
        None => {
            *watched = seen;
            false
        },
    }
}

/// Seconds between runs: the configured interval, or 60.
pub fn check_interval_or_default(config: &Config) -> (secs: u64)
    ensures
        secs == match config.check_interval {
            Some(s) => s,
            None => 60,
        },
{
    match config.check_interval {
        Some(s) => s,
        None => 60,
    }
}

/// Whether the program keeps running: with an interval, or with the
/// dashboard on. Otherwise it updates once and exits.
pub fn keeps_running(config: &Config) -> (b: bool)
    ensures
        b == (config.check_interval is Some || config.web.enabled),
{
    config.check_interval.is_some() || config.web.enabled
}

} // verus!
