//! Crash-report handling: where crash files live, how report text is laid
//! out, which filenames are accepted back, and how stored reports are
//! listed. Writing and reading the files themselves is I/O and stays with
//! the caller.
use vstd::prelude::*;

use crate::agents::opt_view;
use crate::strutil::contains_seq;
use crate::strutil::dec_str;
use crate::strutil::ends_with_seq;
use crate::strutil::starts_with_seq;
use crate::strutil::str_contains;
use crate::strutil::str_ends_with;
use crate::strutil::str_starts_with;
use crate::strutil::u64_to_dec;

verus! {

/// An error reported by the frontend, to be rendered into a crash report.
pub struct FrontendError {
    pub message: String,
    pub source: Option<String>,
    pub lineno: Option<u32>,
    pub colno: Option<u32>,
    pub stack: Option<String>,
    pub component_stack: Option<String>,
    pub error_type: String,
}

/// One stored crash report, as listed to the client.
pub struct CrashLogEntry {
    pub filename: String,
    pub timestamp: u64,
    pub size_bytes: u64,
}

pub ghost struct CrashLogEntryV {
    pub filename: Seq<char>,
    pub timestamp: u64,
    pub size_bytes: u64,
}

impl View for CrashLogEntry {
    type V = CrashLogEntryV;

    open spec fn view(&self) -> CrashLogEntryV {
        CrashLogEntryV {
            filename: self.filename@,
            timestamp: self.timestamp,
            size_bytes: self.size_bytes,
        }
    }
}

/// Process-wide crash-log configuration, set once at startup and read by
/// the panic path; before initialization a platform default applies.
pub struct CrashLogState {
    pub dir: Option<String>,
}

/// Records the directory under which crash reports are written.
pub fn set_crash_log_dir(state: &mut CrashLogState, path: String)
    ensures
        final(state).dir == Some(path),
{
    state.dir = Some(path);
}

/// The crash subdirectory under a log directory.
pub fn crash_dir(log_dir: &str) -> (r: String)
    ensures
        r@ == log_dir@ + "/crashes"@,
{
    let mut r = String::from_str(log_dir);
    r.append("/crashes");
    r
}

/// The file name a crash written at the given clock value receives.
pub fn crash_file_name(millis: u64) -> (r: String)
    ensures
        r@ == "crash-"@ + dec_str(millis as nat) + ".log"@,
{
    let mut r = String::from_str("crash-");
    let digits = u64_to_dec(millis);
    r.append(digits.as_str());
    r.append(".log");
    r
}

/// Whether a stored file name is a crash report's.
pub open spec fn is_crash_log_name(name: Seq<char>) -> bool {
    starts_with_seq(name, "crash-"@) && ends_with_seq(name, ".log"@)
}

/// Whether a directory entry belongs in the crash-report listing.
pub fn crash_log_name_matches(name: &str) -> (r: bool)
    ensures
        r == is_crash_log_name(name@),
{
    str_starts_with(name, "crash-") && str_ends_with(name, ".log")
}

/// Validates a client-supplied crash-log file name before any file is
/// touched: path traversal and separators are rejected, as is anything
/// that is not a crash report's name. Success is owed exactly on clean
/// crash-report names.
pub fn validate_crash_log_filename(filename: &str) -> (r: Result<(), String>)
    ensures
        (contains_seq(filename@, ".."@) || contains_seq(filename@, "/"@) || contains_seq(
            filename@,
            "\\"@,
        )) ==> (r matches Err(m) && m@ == "Invalid filename"@),
        !(contains_seq(filename@, ".."@) || contains_seq(filename@, "/"@) || contains_seq(
            filename@,
            "\\"@,
        )) && !is_crash_log_name(filename@) ==> (r matches Err(m) && m@
            == "Invalid crash log filename"@),
        !(contains_seq(filename@, ".."@) || contains_seq(filename@, "/"@) || contains_seq(
            filename@,
            "\\"@,
        )) && is_crash_log_name(filename@) ==> r is Ok,
{
    if str_contains(filename, "..") || str_contains(filename, "/") || str_contains(
        filename,
        "\\",
    ) {
        return Err(String::from_str("Invalid filename"));
    }
    if !crash_log_name_matches(filename) {
        return Err(String::from_str("Invalid crash log filename"));
    }
    Ok(())
}

/// The text of a native panic report.
pub open spec fn panic_report_text(
    timestamp: Seq<char>,
    os: Seq<char>,
    arch: Seq<char>,
    version: Seq<char>,
    info: Seq<char>,
    backtrace: Seq<char>,
) -> Seq<char> {
    "=== AuricIDE Crash Report ===\nType: rust_panic\nTimestamp: "@ + timestamp + "\nOS: "@ + os
        + " "@ + arch + "\nApp Version: "@ + version + "\n\n--- Panic Info ---\n"@ + info
        + "\n\n--- Backtrace ---\n"@ + backtrace
}

/// Lays out a native panic report from its parts.
pub fn render_panic_report(
    timestamp: &str,
    os: &str,
    arch: &str,
    version: &str,
    info: &str,
    backtrace: &str,
) -> (r: String)
    ensures
        r@ == panic_report_text(timestamp@, os@, arch@, version@, info@, backtrace@),
{
    let mut r = String::from_str("=== AuricIDE Crash Report ===\nType: rust_panic\nTimestamp: ");
    r.append(timestamp);
    r.append("\nOS: ");
    r.append(os);
    r.append(" ");
    r.append(arch);
    r.append("\nApp Version: ");
    r.append(version);
    r.append("\n\n--- Panic Info ---\n");
    r.append(info);
    r.append("\n\n--- Backtrace ---\n");
    r.append(backtrace);
    r
}

/// Relies on chrono's `Local::now` and `DateTime::format`: the current
/// local time laid out with date, time to milliseconds, and zone offset.
/// The result depends on the clock and the machine's time zone; nothing is
/// assumed of it.
#[verifier::external_body]
fn now_local_formatted() -> (r: String) {
    chrono::Local::now().format("%Y-%m-%d %H:%M:%S%.3f %z").to_string()
}

/// Renders a native panic report stamped with the current local time.
pub fn format_panic_report(
    info: &str,
    backtrace: &str,
    os: &str,
    arch: &str,
    version: &str,
) -> (r: String)
    ensures
        exists|ts: Seq<char>|
            r@ == #[trigger] panic_report_text(ts, os@, arch@, version@, info@, backtrace@),
{
    let ts = now_local_formatted();
    render_panic_report(ts.as_str(), os, arch, version, info, backtrace)
}

/// The location line of a frontend report: source, line and column when
/// given, shortened to what is present, `unknown` otherwise.
pub open spec fn frontend_location(
    source: Option<Seq<char>>,
    lineno: Option<u32>,
    colno: Option<u32>,
) -> Seq<char> {
    match (source, lineno, colno) {
        (Some(src), Some(line), Some(col)) => src + ":"@ + dec_str(line as nat) + ":"@ + dec_str(
            col as nat,
        ),
        (Some(src), Some(line), None) => src + ":"@ + dec_str(line as nat),
        (Some(src), None, None) => src,
        _ => "unknown"@,
    }
}

/// The text of a frontend crash report.
pub open spec fn frontend_report_text(
    error_type: Seq<char>,
    timestamp: Seq<char>,
    os: Seq<char>,
    arch: Seq<char>,
    version: Seq<char>,
    message: Seq<char>,
    location: Seq<char>,
    stack: Option<Seq<char>>,
    component_stack: Option<Seq<char>>,
) -> Seq<char> {
    "=== AuricIDE Crash Report ===\nType: "@ + error_type + "\nTimestamp: "@ + timestamp
        + "\nOS: "@ + os + " "@ + arch + "\nApp Version: "@ + version + "\n\n--- Error ---\n"@
        + message + "\nLocation: "@ + location + "\n\n--- Stack Trace ---\n"@ + (match stack {
        Some(st) => st,
        None => "(no stack trace)"@,
    }) + (match component_stack {
        Some(cs) => "\n\n--- Component Stack ---\n"@ + cs,
        None => Seq::<char>::empty(),
    })
}

/// Lays out a frontend crash report from its parts.
pub fn render_frontend_report(
    error: &FrontendError,
    timestamp: &str,
    os: &str,
    arch: &str,
    version: &str,
) -> (r: String)
    ensures
        r@ == frontend_report_text(
            error.error_type@,
            timestamp@,
            os@,
            arch@,
            version@,
            error.message@,
            frontend_location(opt_view(error.source), error.lineno, error.colno),
            opt_view(error.stack),
            opt_view(error.component_stack),
        ),
{
    let mut location = String::new();
    match (&error.source, &error.lineno, &error.colno) {
        (Some(src), Some(line), Some(col)) => {
            location.append(src.as_str());
            location.append(":");
            let l = u64_to_dec(*line as u64);
            location.append(l.as_str());
            location.append(":");
            let c = u64_to_dec(*col as u64);
            location.append(c.as_str());
        },
        (Some(src), Some(line), None) => {
            location.append(src.as_str());
            location.append(":");
            let l = u64_to_dec(*line as u64);
            location.append(l.as_str());
        },
        (Some(src), None, None) => {
            location.append(src.as_str());
        },
        _ => {
            location.append("unknown");
        },
    }

    let mut r = String::from_str("=== AuricIDE Crash Report ===\nType: ");
    r.append(error.error_type.as_str());
    r.append("\nTimestamp: ");
    r.append(timestamp);
    r.append("\nOS: ");
    r.append(os);
    r.append(" ");
    r.append(arch);
    r.append("\nApp Version: ");
    r.append(version);
    r.append("\n\n--- Error ---\n");
    r.append(error.message.as_str());
    r.append("\nLocation: ");
    r.append(location.as_str());
    r.append("\n\n--- Stack Trace ---\n");
    match &error.stack {
        Some(st) => r.append(st.as_str()),
        None => r.append("(no stack trace)"),
    }
    match &error.component_stack {
        Some(cs) => {
            r.append("\n\n--- Component Stack ---\n");
            r.append(cs.as_str());
        },
        None => {},
    }
    r
}

/// Renders a frontend crash report stamped with the current local time.
pub fn format_frontend_report(error: &FrontendError, os: &str, arch: &str, version: &str) -> (r:
    String)
    ensures
        exists|ts: Seq<char>|
            r@ == #[trigger] frontend_report_text(
                error.error_type@,
                ts,
                os@,
                arch@,
                version@,
                error.message@,
                frontend_location(opt_view(error.source), error.lineno, error.colno),
                opt_view(error.stack),
                opt_view(error.component_stack),
            ),
{
    let ts = now_local_formatted();
    render_frontend_report(error, ts.as_str(), os, arch, version)
}

/// The views of listed crash entries.
pub open spec fn entry_views(entries: Seq<CrashLogEntry>) -> Seq<CrashLogEntryV> {
    entries.map_values(|e: CrashLogEntry| e@)
}

/// Sorts crash entries newest first, as the listing shows them.
pub fn sort_crash_entries(input: Vec<CrashLogEntry>) -> (r: Vec<CrashLogEntry>)
    ensures
        entry_views(r@).to_multiset() == entry_views(input@).to_multiset(),
        forall|i: int, j: int|
            0 <= i < j < r@.len() ==> (#[trigger] r@[i])@.timestamp >= (#[trigger] r@[j])@.timestamp,
{
    broadcast use vstd::seq_lib::group_to_multiset_ensures;
    broadcast use vstd::multiset::group_multiset_axioms;

    let ghost orig = entry_views(input@);
    let mut input = input;
    let mut out: Vec<CrashLogEntry> = Vec::new();
    proof {
        assert(entry_views(out@) =~= Seq::<CrashLogEntryV>::empty());
        assert(Seq::<CrashLogEntryV>::empty().to_multiset() =~= vstd::multiset::Multiset::<
            CrashLogEntryV,
        >::empty()) by {
            Seq::<CrashLogEntryV>::empty().to_multiset_ensures();
            assert(Seq::<CrashLogEntryV>::empty().to_multiset().len() == 0);
        }
        assert(vstd::multiset::Multiset::<CrashLogEntryV>::empty().add(orig.to_multiset())
            =~= orig.to_multiset());
    }
    while input.len() > 0
        invariant
            entry_views(out@).to_multiset().add(entry_views(input@).to_multiset())
                == orig.to_multiset(),
            forall|i: int, j: int|
                0 <= i < j < out@.len() ==> (#[trigger] out@[i])@.timestamp >= (
                #[trigger] out@[j])@.timestamp,
            forall|i: int, j: int|
                0 <= i < out@.len() && 0 <= j < input@.len() ==> (#[trigger] out@[i])@.timestamp
                    >= (#[trigger] input@[j])@.timestamp,
        decreases input@.len(),
    {
        let mut m: usize = 0;
        let mut t: usize = 1;
        while t < input.len()
            invariant
                m < t <= input@.len(),
                input@.len() > 0,
                forall|j: int|
                    0 <= j < t ==> input@[m as int]@.timestamp >= (#[trigger] input@[j])@.timestamp,
            decreases input@.len() - t,
        {
            if input[t].timestamp > input[m].timestamp {
                m = t;
            }
            t += 1;
        }
        let ghost out_before = entry_views(out@);
        let ghost input_before = entry_views(input@);
        let ghost gm = m as int;
        let x = input.remove(m);
        let ghost gx = x@;
        out.push(x);
        proof {
            broadcast use vstd::seq_lib::group_to_multiset_ensures;
            broadcast use vstd::multiset::group_multiset_axioms;

            assert(entry_views(out@) =~= out_before.push(gx));
            assert(entry_views(input@) =~= input_before.remove(gm));
            assert(input_before[gm] == gx);
            assert(input_before.contains(gx));
            assert(out_before.push(gx).to_multiset() =~= out_before.to_multiset().insert(gx));
            assert(input_before.remove(gm).to_multiset() == input_before.to_multiset().remove(gx));
            assert(input_before.to_multiset().count(gx) > 0);
            assert(entry_views(out@).to_multiset().add(entry_views(input@).to_multiset())
                =~= out_before.to_multiset().add(input_before.to_multiset()));
            assert forall|i: int, j: int|
                0 <= i < out@.len() && 0 <= j < input@.len() implies (
            #[trigger] out@[i])@.timestamp >= (#[trigger] input@[j])@.timestamp by {
                let old_j = if j < gm {
                    j
                } else {
                    j + 1
                };
                assert(input@[j]@ == entry_views(input@)[j]);
                assert(entry_views(input@)[j] == input_before.remove(gm)[j]);
                assert(input_before.remove(gm)[j] == input_before[old_j]);
                if i < out@.len() - 1 {
                    assert(out@[i]@ == out_before[i]);
                } else {
                    assert(out@[i]@ == gx);
                }
            }
        }
    }
    proof {
        assert(entry_views(input@).to_multiset() =~= vstd::multiset::Multiset::<
            CrashLogEntryV,
        >::empty());
    }
    out
}

} // verus!
