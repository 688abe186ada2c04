use vstd::prelude::*;

use crate::text::{is_plain_component, starts_with_two_separators};

verus! {

/// `s` ends with `suffix`.
pub open spec fn ends_with(s: Seq<char>, suffix: Seq<char>) -> bool {
    suffix.len() <= s.len() && s.subrange(s.len() - suffix.len(), s.len() as int) == suffix
}

/// `path` is `dir` with `name` placed inside it: directly after it, or after one
/// separator, a slash or a backslash.
pub open spec fn joined(dir: Seq<char>, name: Seq<char>, path: Seq<char>) -> bool {
    path == dir + name || path == dir + seq!['/'] + name || path == dir + seq!['\\'] + name
}

/// Calls `Path::join` to place the plain file name `name` inside the directory
/// `dir`. Which separator goes between them, and whether one does, depends on the
/// platform the program is built for and on how `dir` ends, so the result is not
/// named; the contract states what holds on every platform for a plain name: the
/// joined path ends with `name`, and, unless `dir` begins with two separators (as
/// the Windows paths do that `Path::join` may rewrite), it is `dir` followed by
/// `name`, directly or after one slash or backslash. Which of these it is is left
/// unsaid.
#[verifier::external_body]
fn join_path(dir: &str, name: &str) -> (path: String)
    requires
        is_plain_component(name@),
    ensures
        ends_with(path@, name@),
        !starts_with_two_separators(dir@) ==> joined(dir@, name@, path@),
{
    std::path::Path::new(dir).join(name).to_string_lossy().into_owned()
}

/// The names of the tracker's directory and files are plain components.
proof fn lemma_names_are_plain()
    ensures
        is_plain_component("app-usage-tracker"@),
        is_plain_component("usage.json"@),
        is_plain_component("tracker.pid"@),
        is_plain_component("stop.request"@),
{
    reveal_strlit("app-usage-tracker");
    reveal_strlit("usage.json");
    reveal_strlit("tracker.pid");
    reveal_strlit("stop.request");
    assert("app-usage-tracker"@ =~= seq!['a', 'p', 'p', '-', 'u', 's', 'a', 'g', 'e', '-', 't', 'r', 'a', 'c', 'k', 'e', 'r']);
    assert("usage.json"@ =~= seq!['u', 's', 'a', 'g', 'e', '.', 'j', 's', 'o', 'n']);
    assert("tracker.pid"@ =~= seq!['t', 'r', 'a', 'c', 'k', 'e', 'r', '.', 'p', 'i', 'd']);
    assert("stop.request"@ =~= seq!['s', 't', 'o', 'p', '.', 'r', 'e', 'q', 'u', 'e', 's', 't']);
}

/// The directory, inside the local data directory, that holds the tracker's files.
pub fn application_data_dir(local_data_dir: &str) -> (dir: String)
    ensures
        ends_with(dir@, "app-usage-tracker"@),
        !starts_with_two_separators(local_data_dir@) ==> joined(local_data_dir@, "app-usage-tracker"@, dir@),
{
    proof {
        lemma_names_are_plain();
    }
    join_path(local_data_dir, "app-usage-tracker")
}

/// The file in the application data directory that holds the saved usage.
pub fn usage_file_path(application_data_dir: &str) -> (path: String)
    ensures
        ends_with(path@, "usage.json"@),
        !starts_with_two_separators(application_data_dir@) ==> joined(application_data_dir@, "usage.json"@, path@),
{
    proof {
        lemma_names_are_plain();
    }
    join_path(application_data_dir, "usage.json")
}

/// The file in the application data directory that holds the running tracker's process id.
pub fn tracker_pid_path(application_data_dir: &str) -> (path: String)
    ensures
        ends_with(path@, "tracker.pid"@),
        !starts_with_two_separators(application_data_dir@) ==> joined(application_data_dir@, "tracker.pid"@, path@),
{
    proof {
        lemma_names_are_plain();
    }
    join_path(application_data_dir, "tracker.pid")
}

/// The file in the application data directory whose presence asks the tracker to stop.
pub fn stop_request_path(application_data_dir: &str) -> (path: String)
    ensures
        ends_with(path@, "stop.request"@),
        !starts_with_two_separators(application_data_dir@) ==> joined(application_data_dir@, "stop.request"@, path@),
{
    proof {
        lemma_names_are_plain();
    }
    join_path(application_data_dir, "stop.request")
}

} // verus!
