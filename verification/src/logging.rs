//! Log files: how they are named and how long they are kept.

use vstd::prelude::*;

use crate::tags::model;
use crate::text;
use crate::times;

verus! {

/// Retention window for session log files, in nanoseconds: three days.
pub const LOG_RETENTION_NANOS: u128 = 259200000000000;

/// The name of the log file of a session that began at this time, written as
/// `YYYYMMDD-HHMMSS-fff`: the milliseconds keep two sessions of one second apart.
pub open spec fn session_log_name(stamp: Seq<char>) -> Seq<char> {
    "papervault-"@ + stamp + ".log"@
}

/// The name of the log file of a session.
pub fn log_name_for(stamp: &str) -> (r: String)
    ensures
        r@ == session_log_name(stamp@),
{
    let mut r: String = text::copy_str("papervault-");
    r.append(stamp);
    r.append(".log");
    r
}

/// The stamp of a session that begins at this time, given in local time as seconds
/// since the start of 1970 and nanoseconds; nothing where the calendar does not reach
/// it.
pub fn session_stamp(seconds: i64, nanos: u32) -> (r: Option<String>)
    ensures
        model::opt_text(r) == times::time_text(seconds, nanos, times::STAMP_PATTERN@),
        r is Some ==> text::ends_with(
            r->0@,
            times::three_digits(times::millis_of(nanos)),
        ),
{
    times::format_time(seconds, nanos, times::STAMP_PATTERN)
}

/// The name is that of a log file: of a session, or the single one of old.
pub open spec fn is_log_name(name: Seq<char>) -> bool {
    ||| text::starts_with(name, "papervault-"@) && text::ends_with(name, ".log"@)
    ||| name == "papervault.log"@
}

/// Whether a name is that of a log file.
fn names_log(name: &str) -> (r: bool)
    ensures
        r == is_log_name(name@),
{
    if text::same_text(name, "papervault.log") {
        return true;
    }
    let chars: Vec<char> = text::chars_of(name);
    let prefix: Vec<char> = text::chars_of("papervault-");
    let suffix: Vec<char> = text::chars_of(".log");
    assert(chars@.skip(0) =~= chars@);
    if chars.len() < suffix.len() || !text::chars_match_at(&chars, &prefix, 0) {
        return false;
    }
    let at: usize = chars.len() - suffix.len();
    let r: bool = text::chars_match_at(&chars, &suffix, at);
    assert(chars@.skip(at as int).take(suffix@.len() as int) =~= chars@.skip(at as int));
    r
}

/// Whether a file of the log folder is removed at startup: it is a log file, and
/// strictly older than the retention window. The age is unknown where the clock was
/// set back; such a file is kept.
pub fn is_swept(name: &str, age_nanos: Option<u128>, max_age_nanos: u128) -> (r: bool)
    ensures
        r == (is_log_name(name@) && age_nanos is Some && age_nanos->0 > max_age_nanos),
{
    match age_nanos {
        Some(age) => age > max_age_nanos && names_log(name),
        None => false,
    }
}

/// A file of the log folder: its name, and its age, where it is known.
#[derive(Debug, Clone)]
pub struct LogFile {
    pub name: String,
    pub age_nanos: Option<u128>,
}

/// A file is removed at startup.
pub open spec fn is_old_log(file: LogFile, max_age_nanos: u128) -> bool {
    is_log_name(file.name@) && file.age_nanos is Some && file.age_nanos->0 > max_age_nanos
}

/// The names of the files that are removed at startup, in order. Where there is no log
/// folder, there are none.
pub open spec fn swept_names(folder: Option<Seq<LogFile>>, max_age_nanos: u128) -> Seq<Seq<char>> {
    match folder {
        Some(files) => files.filter(|f: LogFile| is_old_log(f, max_age_nanos)).map_values(
            |f: LogFile| f.name@,
        ),
        None => Seq::empty(),
    }
}

/// The files of the log folder that are removed at startup.
pub fn logs_to_sweep(folder: Option<&Vec<LogFile>>, max_age_nanos: u128) -> (r: Vec<String>)
    ensures
        text::texts(r@) == swept_names(
            match folder {
                Some(files) => Some(files@),
                None => None,
            },
            max_age_nanos,
        ),
{
    let mut r: Vec<String> = Vec::new();
    let files: &Vec<LogFile> = match folder {
        Some(files) => files,
        None => {
            assert(text::texts(r@) =~= Seq::<Seq<char>>::empty());
            return r;
        },
    };
    let ghost old_log = |f: LogFile| is_old_log(f, max_age_nanos);
    let ghost name = |f: LogFile| f.name@;
    let mut i: usize = 0;
    proof {
        reveal(Seq::filter);
        assert(files@.take(0) =~= Seq::<LogFile>::empty());
        assert(text::texts(r@) =~= files@.take(0).filter(old_log).map_values(name));
    }
    while i < files.len()
        invariant
            i <= files@.len(),
            old_log == (|f: LogFile| is_old_log(f, max_age_nanos)),
            name == (|f: LogFile| f.name@),
            text::texts(r@) == files@.take(i as int).filter(old_log).map_values(name),
        decreases files@.len() - i,
    {
        let file: &LogFile = &files[i];
        let ghost before = r@;
        proof {
            reveal(Seq::filter);
            assert(files@.take(i + 1).drop_last() =~= files@.take(i as int));
            assert(files@.take(i + 1).last() == file);
        }
        if is_swept(file.name.as_str(), file.age_nanos, max_age_nanos) {
            r.push(text::copy_str(file.name.as_str()));
            proof {
                let kept = files@.take(i as int).filter(old_log);
                assert(kept.push(*file).map_values(name) =~= kept.map_values(name).push(
                    file.name@,
                ));
                assert(text::texts(r@) =~= text::texts(before).push(file.name@));
            }
        }
        i = i + 1;
    }
    assert(files@.take(files@.len() as int) =~= files@);
    r
}

/// The record of a crash: when it was, in which session, and what was said.
pub fn crash_record(when: &str, session_id: &str, message: &str) -> (r: String)
    ensures
        r@ == "Panic at "@ + when@ + " (session "@ + session_id@ + "): "@ + message@,
{
    let mut r: String = text::copy_str("Panic at ");
    r.append(when);
    r.append(" (session ");
    r.append(session_id);
    r.append("): ");
    r.append(message);
    r
}

/// The log file of a session is swept once it is old enough, and two sessions that
/// began at different times have different ones.
pub proof fn session_logs_are_logs(a: Seq<char>, b: Seq<char>)
    ensures
        is_log_name(session_log_name(a)),
        a != b ==> session_log_name(a) != session_log_name(b),
{
    let name = session_log_name(a);
    let prefix = "papervault-"@;
    let suffix = ".log"@;
    assert(name.take(prefix.len() as int) =~= prefix);
    assert(name.skip(name.len() - suffix.len()) =~= suffix);
    if session_log_name(a) == session_log_name(b) {
        let n = prefix.len() as int;
        assert(a.len() == b.len());
        assert(a =~= session_log_name(a).subrange(n, n + a.len()));
        assert(b =~= session_log_name(b).subrange(n, n + b.len()));
    }
}

/// Rapid restarts have different log files: the milliseconds keep two sessions
/// apart, so that none truncates the log of another.
pub proof fn restarts_have_their_own_logs(a: Seq<char>, b: Seq<char>, a_nanos: u32, b_nanos: u32)
    requires
        text::ends_with(a, times::three_digits(times::millis_of(a_nanos))),
        text::ends_with(b, times::three_digits(times::millis_of(b_nanos))),
        times::millis_of(a_nanos) != times::millis_of(b_nanos),
    ensures
        session_log_name(a) != session_log_name(b),
{
    let (x, y) = (times::millis_of(a_nanos), times::millis_of(b_nanos));
    if a == b {
        assert(times::three_digits(x) =~= a.skip(a.len() - 3));
        times::lemma_three_digits(x, y);
    }
    session_logs_are_logs(a, b);
}

/// A log file is swept where it is older than the retention window, of three days, and
/// its age is known; nothing but log files is.
pub proof fn old_logs_are_swept(
    files: Seq<LogFile>,
    max_age: u128,
    file: LogFile,
    i: int,
)
    ensures
        session_log_name(file.name@) == "papervault-"@ + file.name@ + ".log"@,
        is_log_name(file.name@) <==> file.name@ == "papervault.log"@ || (text::starts_with(
            file.name@,
            "papervault-"@,
        ) && text::ends_with(file.name@, ".log"@)),
        is_old_log(file, max_age) <==> is_log_name(file.name@) && file.age_nanos is Some
            && file.age_nanos->0 > max_age,
        0 <= i < files.len() && is_old_log(files[i], max_age) ==> swept_names(
            Some(files),
            max_age,
        ).contains(files[i].name@),
        is_old_log(file, max_age) ==> swept_names(Some(files.push(file)), max_age) == swept_names(
            Some(files),
            max_age,
        ).push(file.name@),
        !is_old_log(file, max_age) ==> swept_names(Some(files.push(file)), max_age) == swept_names(
            Some(files),
            max_age,
        ),
        swept_names(None, max_age).len() == 0,
        swept_names(Some(Seq::empty()), max_age).len() == 0,
        LOG_RETENTION_NANOS == 3 * 24 * 3600 * 1000000000,
{
    let p = |f: LogFile| is_old_log(f, max_age);
    let name = |f: LogFile| f.name@;
    if 0 <= i < files.len() && is_old_log(files[i], max_age) {
        files.lemma_filter_contains(p, i);
        let k = choose|k: int| 0 <= k < files.filter(p).len() && files.filter(p)[k] == files[i];
        assert(swept_names(Some(files), max_age)[k] == files[i].name@);
    }
    reveal(Seq::filter);
    assert(files.push(file).drop_last() =~= files);
    if is_old_log(file, max_age) {
        assert(files.push(file).filter(p) =~= files.filter(p).push(file));
        assert(swept_names(Some(files.push(file)), max_age) =~= swept_names(
            Some(files),
            max_age,
        ).push(file.name@));
    } else {
        assert(files.push(file).filter(p) =~= files.filter(p));
    }
}

/// The record of a crash holds when it was, the session and the message, each whole.
pub proof fn crashes_are_recorded_whole(when: &str, session_id: &str, message: &str, r: String)
    requires
        call_ensures(crash_record, (when, session_id, message), r),
    ensures
        r@ == "Panic at "@ + when@ + " (session "@ + session_id@ + "): "@ + message@,
        text::ends_with(r@, message@),
{
    assert(r@.skip(r@.len() - message@.len()) =~= message@);
}

} // verus!
