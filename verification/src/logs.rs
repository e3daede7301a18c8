//! Exporting logs, and reporting crashes.

use vstd::prelude::*;
use vstd::string::StringExecFns;
use crate::clock;
use crate::error;
use crate::error::{AppError, ErrorView};
use crate::paths;
use crate::text;

verus! {

// ── Exporting ────────────────────────────────────────────────────────

/// The name `.ssh`, in bytes.
pub open spec fn ssh_dir() -> Seq<u8> {
    seq![46u8, 115, 115, 104]
}

/// The name `.gnupg`, in bytes.
pub open spec fn gnupg_dir() -> Seq<u8> {
    seq![46u8, 103, 110, 117, 112, 103]
}

/// The verdict on the directory of an export, with all links resolved, given
/// the user's home directory: it lies in the home directory, but in none of
/// the sensitive directories there.
pub open spec fn export_dir_verdict(dir: Seq<Seq<u8>>, home: Seq<Seq<u8>>) -> Result<
    (),
    ErrorView,
> {
    if !paths::lies_in(dir, home) {
        Err(ErrorView::Validation("Export path must be within your home directory"@))
    } else if paths::next_component(dir, home) == Some(ssh_dir()) || paths::next_component(
        dir,
        home,
    ) == Some(gnupg_dir()) {
        Err(ErrorView::Validation("Cannot export to sensitive directory"@))
    } else {
        Ok(())
    }
}

/// The verdict on an export. The path has a directory in front of it, `dir`
/// is that with all links resolved if it exists, and `home` the user's home
/// directory if it is known.
pub open spec fn export_verdict(
    has_dir: bool,
    dir: Option<Seq<Seq<u8>>>,
    home: Option<Seq<Seq<u8>>>,
) -> Result<(), ErrorView> {
    if !has_dir {
        Err(ErrorView::Validation("Invalid export path"@))
    } else {
        match (dir, home) {
            (None, _) => Err(ErrorView::Validation("Export directory does not exist"@)),
            (_, None) => Err(ErrorView::Other("Cannot determine home directory"@)),
            (Some(d), Some(h)) => export_dir_verdict(d, h),
        }
    }
}

/// The components of a path, if there is one.
pub open spec fn components_of(path: Option<&[Vec<u8>]>) -> Option<Seq<Seq<u8>>> {
    match path {
        Some(p) => Some(paths::components(p@)),
        None => None,
    }
}

/// Check where logs are exported to.
pub fn export_logs(has_dir: bool, dir: Option<&[Vec<u8>]>, home: Option<&[Vec<u8>]>) -> (r: Result<
    (),
    AppError,
>)
    ensures
        error::outcome(r) == export_verdict(has_dir, components_of(dir), components_of(home)),
{
    if !has_dir {
        return Err(AppError::Validation("Invalid export path".to_string()));
    }
    let d = match dir {
        Some(d) => d,
        None => {
            return Err(AppError::Validation("Export directory does not exist".to_string()));
        },
    };
    let h = match home {
        Some(h) => h,
        None => {
            return Err(AppError::Other("Cannot determine home directory".to_string()));
        },
    };
    if !paths::is_within(d, h) {
        return Err(
            AppError::Validation("Export path must be within your home directory".to_string()),
        );
    }
    let ssh: Vec<u8> = vec![46, 115, 115, 104];
    let gnupg: Vec<u8> = vec![46, 103, 110, 117, 112, 103];
    assert(ssh@ == ssh_dir());
    assert(gnupg@ == gnupg_dir());
    if paths::is_within_named(d, h, ssh.as_slice()) || paths::is_within_named(
        d,
        h,
        gnupg.as_slice(),
    ) {
        return Err(AppError::Validation("Cannot export to sensitive directory".to_string()));
    }
    Ok(())
}

/// Nothing is exported outside of the home directory.
pub proof fn law_exports_stay_at_home(
    has_dir: bool,
    dir: Option<Seq<Seq<u8>>>,
    home: Option<Seq<Seq<u8>>>,
)
    requires
        export_verdict(has_dir, dir, home) is Ok,
    ensures
        dir is Some,
        home is Some,
        paths::lies_in(dir->0, home->0),
{
}

/// Nothing is exported to a sensitive directory of the home directory, nor
/// anywhere below it.
pub proof fn law_sensitive_directories_are_spared(
    dir: Seq<Seq<u8>>,
    home: Seq<Seq<u8>>,
    rest: Seq<Seq<u8>>,
)
    requires
        dir == home.push(ssh_dir()) + rest || dir == home.push(gnupg_dir()) + rest,
    ensures
        export_verdict(true, Some(dir), Some(home)) == Err::<(), ErrorView>(
            ErrorView::Validation("Cannot export to sensitive directory"@),
        ),
{
    assert(dir.subrange(0, home.len() as int) == home);
}

// ── Crashes ──────────────────────────────────────────────────────────

/// The report on a user without a configuration directory.
pub fn config_dir_missing() -> (r: AppError)
    ensures
        r@ == ErrorView::Other("Cannot find config directory"@),
{
    AppError::Other("Cannot find config directory".to_string())
}

/// The name of the file for a crash at the given time.
pub fn crash_file_name(stamp: &str) -> (r: String)
    ensures
        r@ == "crash_"@ + stamp@ + ".log"@,
{
    text::concat3("crash_", stamp, ".log")
}

/// The report on a crash.
pub open spec fn crash_report_text(
    time: Seq<char>,
    message: Seq<char>,
    stack: Seq<char>,
    component_stack: Seq<char>,
) -> Seq<char> {
    "Crash Report - "@ + time + "\n\nMessage: "@ + message + "\n\nStack:\n"@ + stack
        + "\n\nComponent Stack:\n"@ + component_stack + "\n"@
}

/// Write the report on a crash at the given time.
pub fn crash_report(time: &str, message: &str, stack: &str, component_stack: &str) -> (r: String)
    ensures
        r@ == crash_report_text(time@, message@, stack@, component_stack@),
{
    let mut s = text::concat3("Crash Report - ", time, "\n\nMessage: ");
    s.append(message);
    s.append("\n\nStack:\n");
    s.append(stack);
    s.append("\n\nComponent Stack:\n");
    s.append(component_stack);
    s.append("\n");
    s
}

/// Report a crash that happens now: the name of a file and what to write in
/// it.
pub fn log_crash(message: &str, stack: &str, component_stack: &str) -> (r: (String, String))
    ensures
        exists|stamp: Seq<char>|
            clock::ends_with_stamp(stamp) && r.0@ == #[trigger] ("crash_"@ + stamp) + ".log"@,
        exists|time: Seq<char>|
            clock::is_time(time) && r.1@ == #[trigger] crash_report_text(
                time,
                message@,
                stack@,
                component_stack@,
            ),
{
    let stamp = clock::local_stamp();
    let name = crash_file_name(stamp.as_str());
    let time = clock::local_now();
    let report = crash_report(time.as_str(), message, stack, component_stack);
    proof {
        let s = stamp@;
        assert(clock::ends_with_stamp(s) && name@ == ("crash_"@ + s) + ".log"@);
        let t = time@;
        assert(clock::is_time(t) && report@ == crash_report_text(
            t,
            message@,
            stack@,
            component_stack@,
        ));
    }
    (name, report)
}

// ── What holds of exports and reports ────────────────────────────────

/// An export is accepted exactly if its directory exists, lies in the user's
/// home directory, and lies in neither `.ssh` nor `.gnupg` there.
pub proof fn law_accepted_exports(dir: Seq<Seq<u8>>, home: Seq<Seq<u8>>)
    ensures
        export_verdict(true, Some(dir), Some(home)) is Ok <==> home.len() <= dir.len() && dir.take(
            home.len() as int,
        ) == home && (dir.len() > home.len() ==> dir[home.len() as int] != seq![46u8, 115, 115, 104]
            && dir[home.len() as int] != seq![46u8, 103, 110, 117, 112, 103]),
        export_verdict(true, Some(dir), Some(home)) matches Err(e) ==> e == ErrorView::Validation(
            if home.len() <= dir.len() && dir.take(home.len() as int) == home {
                "Cannot export to sensitive directory"@
            } else {
                "Export path must be within your home directory"@
            },
        ),
        export_verdict(false, Some(dir), Some(home)) == Err::<(), ErrorView>(
            ErrorView::Validation("Invalid export path"@),
        ),
        export_verdict(true, None, Some(home)) == Err::<(), ErrorView>(
            ErrorView::Validation("Export directory does not exist"@),
        ),
        export_verdict(true, Some(dir), None) == Err::<(), ErrorView>(
            ErrorView::Other("Cannot determine home directory"@),
        ),
{
    if home.len() <= dir.len() {
        assert(dir.take(home.len() as int) =~= dir.subrange(0, home.len() as int));
    }
}

/// A directory within one that is refused is refused too, and one within an
/// accepted one other than the home directory itself is accepted.
pub proof fn law_exports_go_by_the_directory(
    home: Seq<Seq<u8>>,
    name: Seq<u8>,
    rest: Seq<Seq<u8>>,
    more: Seq<Seq<u8>>,
)
    ensures
        export_verdict(true, Some(home + seq![name] + rest), Some(home)) == export_verdict(
            true,
            Some(home + seq![name] + more),
            Some(home),
        ),
        export_verdict(true, Some(home), Some(home)) is Ok,
{
    let a = home + seq![name] + rest;
    let b = home + seq![name] + more;
    let n = home.len() as int;
    assert(a.subrange(0, n) =~= home);
    assert(b.subrange(0, n) =~= home);
    assert(home.subrange(0, n) =~= home);
    assert(a[n] == name && b[n] == name);
}

/// The report on a crash holds the time, the message and both stacks in full and
/// in order.
pub proof fn law_report_holds_everything(
    time: Seq<char>,
    message: Seq<char>,
    stack: Seq<char>,
    component_stack: Seq<char>,
)
    ensures
        ({
            let report = crash_report_text(time, message, stack, component_stack);
            let a = 15 + time.len() as int;
            let b = a + 11 + message.len();
            let c = b + 9 + stack.len();
            let d = c + 19 + component_stack.len();
            &&& report.len() == d + 1
            &&& report.subrange(0, 15) == "Crash Report - "@
            &&& report.subrange(15, a) == time
            &&& report.subrange(a, a + 11) == "\n\nMessage: "@
            &&& report.subrange(a + 11, b) == message
            &&& report.subrange(b, b + 9) == "\n\nStack:\n"@
            &&& report.subrange(b + 9, c) == stack
            &&& report.subrange(c, c + 19) == "\n\nComponent Stack:\n"@
            &&& report.subrange(c + 19, d) == component_stack
            &&& report[d] == '\n'
        }),
{
    reveal_strlit("Crash Report - ");
    reveal_strlit("\n\nMessage: ");
    reveal_strlit("\n\nStack:\n");
    reveal_strlit("\n\nComponent Stack:\n");
    reveal_strlit("\n");
    let h0 = "Crash Report - "@;
    let h1 = "\n\nMessage: "@;
    let h2 = "\n\nStack:\n"@;
    let h3 = "\n\nComponent Stack:\n"@;
    assert(h0.len() == 15 && h1.len() == 11 && h2.len() == 9 && h3.len() == 19);
    let report = crash_report_text(time, message, stack, component_stack);
    let a = 15 + time.len() as int;
    let b = a + 11 + message.len();
    let c = b + 9 + stack.len();
    let d = c + 19 + component_stack.len();
    assert(report.subrange(0, 15) =~= h0);
    assert(report.subrange(15, a) =~= time);
    assert(report.subrange(a, a + 11) =~= h1);
    assert(report.subrange(a + 11, b) =~= message);
    assert(report.subrange(b, b + 9) =~= h2);
    assert(report.subrange(b + 9, c) =~= stack);
    assert(report.subrange(c, c + 19) =~= h3);
    assert(report.subrange(c + 19, d) =~= component_stack);
}

} // verus!
