use vstd::prelude::*;

use crate::application::{AppUsage, Application, ApplicationMap};
use crate::time::TimeSpan;

verus! {

/// What a further sighting of an already saved application makes of it: one more
/// second of use, and the display name of the sighting if none was saved.
pub open spec fn sighted_again(saved: Application, seen: Application) -> Application {
    Application {
        title: saved.title,
        name: saved.name,
        display_name: if saved.display_name@.len() == 0 {
            seen.display_name
        } else {
            saved.display_name
        },
        executable: saved.executable,
        pid: saved.pid,
        usage: AppUsage {
            total_time: TimeSpan {
                secs: (saved.usage.total_time.secs + 1) as u64,
                nanos: saved.usage.total_time.nanos,
            },
        },
    }
}

/// The saved applications after one sighting of `app`, filed under its executable.
pub open spec fn with_sighting(saved: Map<Seq<char>, Application>, app: Application) -> Map<
    Seq<char>,
    Application,
> {
    let k = app.executable@;
    if saved.contains_key(k) {
        saved.insert(k, sighted_again(saved[k], app))
    } else {
        saved.insert(k, app)
    }
}

/// The saved applications after the sightings `apps`, taken in order.
pub open spec fn with_sightings(saved: Map<Seq<char>, Application>, apps: Seq<Application>) -> Map<
    Seq<char>,
    Application,
>
    decreases apps.len(),
{
    if apps.len() == 0 {
        saved
    } else {
        with_sightings(with_sighting(saved, apps[0]), apps.drop_first())
    }
}

/// No sighting in `apps` adds a second to a total that is already at its largest value.
pub open spec fn sightings_fit(saved: Map<Seq<char>, Application>, apps: Seq<Application>) -> bool
    decreases apps.len(),
{
    if apps.len() == 0 {
        true
    } else {
        let k = apps[0].executable@;
        &&& (saved.contains_key(k) ==> saved[k].usage.total_time.secs < u64::MAX)
        &&& sightings_fit(with_sighting(saved, apps[0]), apps.drop_first())
    }
}

/// Records the sightings one after the other; stops with `false`, before the
/// sighting, when one would overflow a total.
fn record_sightings(saved: &mut ApplicationMap, applications: &ApplicationMap) -> (fit: bool)
    requires
        old(saved).wf(),
    ensures
        final(saved).wf(),
        fit == sightings_fit(old(saved)@, applications.values()),
        fit ==> final(saved)@ == with_sightings(old(saved)@, applications.values()),
{
    let ghost apps = applications.values();
    let n = applications.len();
    let mut i: usize = 0;
    assert(apps.skip(0) =~= apps);
    while i < n
        invariant
            saved.wf(),
            n == apps.len(),
            apps == applications.values(),
            i <= n,
            sightings_fit(old(saved)@, apps) == sightings_fit(saved@, apps.skip(i as int)),
            with_sightings(old(saved)@, apps) == with_sightings(saved@, apps.skip(i as int)),
        decreases n - i,
    {
        let app = applications.app_at(i);
        let ghost before = saved@;
        assert(apps.skip(i as int)[0] == apps[i as int]);
        assert(apps.skip(i as int).drop_first() =~= apps.skip(i + 1));
        let key = app.executable.clone();
        match saved.find(&key) {
            None => {
                saved.insert(key, app.clone());
            },
            Some(j) => {
                let cur = saved.app_at(j);
                if cur.usage.total_time.secs == u64::MAX {
                    return false;
                }
                let display_name = if cur.display_name.as_str().is_empty() {
                    app.display_name.clone()
                } else {
                    cur.display_name.clone()
                };
                let updated = Application {
                    title: cur.title.clone(),
                    name: cur.name.clone(),
                    display_name,
                    executable: cur.executable.clone(),
                    pid: cur.pid,
                    usage: AppUsage {
                        total_time: TimeSpan {
                            secs: cur.usage.total_time.secs + 1,
                            nanos: cur.usage.total_time.nanos,
                        },
                    },
                };
                saved.insert(key, updated);
            },
        }
        assert(saved@ == with_sighting(before, apps[i as int]));
        i = i + 1;
    }
    assert(apps.skip(n as int) =~= Seq::<Application>::empty());
    true
}

/// Counts one more second of use for every application in `applications`,
/// filing it under its executable: an executable seen for the first time is
/// saved as it was seen; one saved already gets one more second, and its
/// display name from the sighting if its own is empty.
pub fn update_visible_applications(saved: &mut ApplicationMap, applications: &ApplicationMap)
    requires
        old(saved).wf(),
        sightings_fit(old(saved)@, applications.values()),
    ensures
        final(saved).wf(),
        final(saved)@ == with_sightings(old(saved)@, applications.values()),
{
    record_sightings(saved, applications);
}

/// Whether [`update_visible_applications`] can count these sightings without a
/// total running past its largest value.
pub fn update_is_safe(saved: &ApplicationMap, applications: &ApplicationMap) -> (fit: bool)
    requires
        saved.wf(),
    ensures
        fit == sightings_fit(saved@, applications.values()),
{
    let mut copy = saved.clone();
    record_sightings(&mut copy, applications)
}

/// What the tracker does after counting one second of sightings.
#[derive(Clone, Copy, Debug, PartialEq, Eq, Structural)]
pub enum TrackerAction {
    /// Keep tracking.
    Continue,
    /// Save the usage, restart the save interval, and keep tracking.
    Save,
    /// Save the usage and stop.
    SaveAndStop,
}

/// How long the tracker waits between two saves.
pub open spec fn save_interval() -> TimeSpan {
    TimeSpan { secs: 60, nanos: 0 }
}

/// A stop request wins; otherwise the usage is saved once the save interval has passed.
pub open spec fn action_after_tick(stop_requested: bool, since_last_save: TimeSpan) -> TrackerAction {
    if stop_requested {
        TrackerAction::SaveAndStop
    } else if since_last_save.at_least(save_interval()) {
        TrackerAction::Save
    } else {
        TrackerAction::Continue
    }
}

/// One second of tracking: counts the visible applications into the saved ones,
/// then says whether to save, to save and stop, or to go on.
pub fn tracker_tick(
    saved: &mut ApplicationMap,
    visible: &ApplicationMap,
    stop_requested: bool,
    since_last_save: TimeSpan,
) -> (action: TrackerAction)
    requires
        old(saved).wf(),
        sightings_fit(old(saved)@, visible.values()),
    ensures
        final(saved).wf(),
        final(saved)@ == with_sightings(old(saved)@, visible.values()),
        action == action_after_tick(stop_requested, since_last_save),
{
    update_visible_applications(saved, visible);
    let interval = TimeSpan::from_secs(60);
    if stop_requested {
        TrackerAction::SaveAndStop
    } else if since_last_save.is_at_least(&interval) {
        TrackerAction::Save
    } else {
        TrackerAction::Continue
    }
}

// ---------------------------------------------------------------------------
// Laws
// ---------------------------------------------------------------------------

/// The saved applications merged with the currently visible ones, key by key:
/// keys seen on both sides are sighted again, the others are kept as they are.
pub open spec fn merged(saved: Map<Seq<char>, Application>, visible: Map<Seq<char>, Application>) -> Map<
    Seq<char>,
    Application,
> {
    Map::new(
        |k: Seq<char>| saved.contains_key(k) || visible.contains_key(k),
        |k: Seq<char>|
            if saved.contains_key(k) && visible.contains_key(k) {
                sighted_again(saved[k], visible[k])
            } else if saved.contains_key(k) {
                saved[k]
            } else {
                visible[k]
            },
    )
}

/// No two applications of `apps` share an executable.
pub open spec fn executables_distinct(apps: Seq<Application>) -> bool {
    forall|i: int, j: int|
        0 <= i < apps.len() && 0 <= j < apps.len() && i != j ==> apps[i].executable@
            != apps[j].executable@
}

/// The applications of `apps` filed under their executables.
pub open spec fn by_executable(apps: Seq<Application>) -> Map<Seq<char>, Application> {
    Map::new(
        |k: Seq<char>| exists|i: int| 0 <= i < apps.len() && apps[i].executable@ == k,
        |k: Seq<char>| apps[choose|i: int| 0 <= i < apps.len() && apps[i].executable@ == k],
    )
}

proof fn lemma_by_executable_at(apps: Seq<Application>, i: int)
    requires
        executables_distinct(apps),
        0 <= i < apps.len(),
    ensures
        by_executable(apps).contains_key(apps[i].executable@),
        by_executable(apps)[apps[i].executable@] == apps[i],
{
    let k = apps[i].executable@;
    assert(0 <= i < apps.len() && apps[i].executable@ == k);
    let j = choose|j: int| 0 <= j < apps.len() && apps[j].executable@ == k;
    assert(j == i);
}

proof fn lemma_sightings_merge(saved: Map<Seq<char>, Application>, apps: Seq<Application>)
    requires
        executables_distinct(apps),
    ensures
        with_sightings(saved, apps) == merged(saved, by_executable(apps)),
    decreases apps.len(),
{
    if apps.len() == 0 {
        assert(merged(saved, by_executable(apps)) =~= saved);
    } else {
        let a0 = apps[0];
        let rest = apps.drop_first();
        let s1 = with_sighting(saved, a0);
        assert(executables_distinct(rest)) by {
            assert forall|i: int, j: int|
                0 <= i < rest.len() && 0 <= j < rest.len() && i != j implies rest[i].executable@
                != rest[j].executable@ by {
                assert(rest[i] == apps[i + 1] && rest[j] == apps[j + 1]);
            }
        }
        lemma_sightings_merge(s1, rest);
        let lhs = merged(s1, by_executable(rest));
        let rhs = merged(saved, by_executable(apps));
        let k0 = a0.executable@;
        assert(!by_executable(rest).contains_key(k0)) by {
            if by_executable(rest).contains_key(k0) {
                let i = choose|i: int| 0 <= i < rest.len() && rest[i].executable@ == k0;
                assert(apps[i + 1].executable@ == apps[0].executable@);
            }
        }
        lemma_by_executable_at(apps, 0);
        assert forall|k: Seq<char>| k != k0 implies (#[trigger] by_executable(rest).contains_key(k)
            == by_executable(apps).contains_key(k)) && (by_executable(rest).contains_key(k)
            ==> by_executable(rest)[k] == by_executable(apps)[k]) by {
            if by_executable(apps).contains_key(k) {
                let i = choose|i: int| 0 <= i < apps.len() && apps[i].executable@ == k;
                assert(i != 0);
                assert(rest[i - 1] == apps[i]);
                lemma_by_executable_at(apps, i);
                lemma_by_executable_at(rest, i - 1);
            }
            if by_executable(rest).contains_key(k) {
                let i = choose|i: int| 0 <= i < rest.len() && rest[i].executable@ == k;
                assert(apps[i + 1] == rest[i]);
            }
        }
        assert forall|k: Seq<char>| #[trigger] lhs.contains_key(k) == rhs.contains_key(k) by {
            if k != k0 {
                assert(by_executable(rest).contains_key(k) == by_executable(apps).contains_key(k));
            }
        }
        assert forall|k: Seq<char>| lhs.contains_key(k) implies #[trigger] lhs[k] == rhs[k] by {
            if k != k0 {
                assert(by_executable(rest).contains_key(k) == by_executable(apps).contains_key(k));
            }
        }
        assert(lhs =~= rhs);
    }
}

proof fn lemma_sightings_fit_distinct(saved: Map<Seq<char>, Application>, apps: Seq<Application>)
    requires
        executables_distinct(apps),
    ensures
        sightings_fit(saved, apps) == forall|i: int|
            0 <= i < apps.len() && #[trigger] saved.contains_key(apps[i].executable@)
                ==> saved[apps[i].executable@].usage.total_time.secs < u64::MAX,
    decreases apps.len(),
{
    if apps.len() > 0 {
        let a0 = apps[0];
        let rest = apps.drop_first();
        let s1 = with_sighting(saved, a0);
        assert(executables_distinct(rest)) by {
            assert forall|i: int, j: int|
                0 <= i < rest.len() && 0 <= j < rest.len() && i != j implies rest[i].executable@
                != rest[j].executable@ by {
                assert(rest[i] == apps[i + 1] && rest[j] == apps[j + 1]);
            }
        }
        lemma_sightings_fit_distinct(s1, rest);
        assert forall|i: int| 0 <= i < rest.len() implies (#[trigger] s1.contains_key(rest[i].executable@)
            ==> s1[rest[i].executable@].usage.total_time.secs < u64::MAX) == (saved.contains_key(
            rest[i].executable@,
        ) ==> saved[rest[i].executable@].usage.total_time.secs < u64::MAX) by {
            assert(rest[i] == apps[i + 1]);
            assert(rest[i].executable@ != a0.executable@);
        }
        let p = forall|i: int|
            0 <= i < apps.len() && #[trigger] saved.contains_key(apps[i].executable@)
                ==> saved[apps[i].executable@].usage.total_time.secs < u64::MAX;
        if p {
            assert forall|i: int| 0 <= i < rest.len() && #[trigger] s1.contains_key(rest[i].executable@)
                implies s1[rest[i].executable@].usage.total_time.secs < u64::MAX by {
                assert(rest[i] == apps[i + 1]);
                assert(rest[i].executable@ != a0.executable@);
            }
        }
        if sightings_fit(saved, apps) {
            assert forall|i: int| 0 <= i < apps.len() && #[trigger] saved.contains_key(apps[i].executable@)
                implies saved[apps[i].executable@].usage.total_time.secs < u64::MAX by {
                if i > 0 {
                    assert(apps[i] == rest[i - 1]);
                    assert(rest[i - 1].executable@ != a0.executable@);
                    assert(s1.contains_key(rest[i - 1].executable@));
                }
            }
        }
    }
}

/// When the visible applications are filed under their own executables, counting
/// them fits exactly when no executable that is both saved and visible has a
/// total at its largest value.
pub proof fn law_sightings_fit_by_key(saved: Map<Seq<char>, Application>, visible: &ApplicationMap)
    requires
        visible.wf(),
        visible.keyed_by_executable(),
    ensures
        sightings_fit(saved, visible.values()) == forall|k: Seq<char>|
            #[trigger] saved.contains_key(k) && visible@.contains_key(k)
                ==> saved[k].usage.total_time.secs < u64::MAX,
{
    visible.lemma_view();
    let apps = visible.values();
    assert(executables_distinct(apps)) by {
        assert forall|i: int, j: int|
            0 <= i < apps.len() && 0 <= j < apps.len() && i != j implies apps[i].executable@
            != apps[j].executable@ by {
            assert(visible.keys()[i] == apps[i].executable@);
            assert(visible.keys()[j] == apps[j].executable@);
        }
    }
    lemma_sightings_fit_distinct(saved, apps);
    if sightings_fit(saved, apps) {
        assert forall|k: Seq<char>| #[trigger] saved.contains_key(k) && visible@.contains_key(k)
            implies saved[k].usage.total_time.secs < u64::MAX by {
            let i = choose|i: int| 0 <= i < visible.keys().len() && visible.keys()[i] == k;
            assert(visible.keys()[i] == apps[i].executable@);
        }
    } else {
        let i = choose|i: int|
            !(0 <= i < apps.len() && #[trigger] saved.contains_key(apps[i].executable@)
                ==> saved[apps[i].executable@].usage.total_time.secs < u64::MAX);
        assert(visible.keys()[i] == apps[i].executable@);
        assert(visible@.contains_key(visible.keys()[i]));
    }
}

/// When the visible applications are filed under their own executables (as the
/// collector files them), counting them is a key-by-key merge: an executable saved
/// and visible gets one more second and, if its display name is empty, the visible
/// one's; an executable only saved is unchanged; one only visible is saved as seen.
/// The order in which the visible applications are taken does not matter.
pub proof fn law_sightings_merge_by_key(saved: Map<Seq<char>, Application>, visible: &ApplicationMap)
    requires
        visible.wf(),
        visible.keyed_by_executable(),
    ensures
        with_sightings(saved, visible.values()) == merged(saved, visible@),
{
    visible.lemma_view();
    let apps = visible.values();
    assert(executables_distinct(apps)) by {
        assert forall|i: int, j: int|
            0 <= i < apps.len() && 0 <= j < apps.len() && i != j implies apps[i].executable@
            != apps[j].executable@ by {
            assert(visible.keys()[i] == apps[i].executable@);
            assert(visible.keys()[j] == apps[j].executable@);
        }
    }
    lemma_sightings_merge(saved, apps);
    assert forall|k: Seq<char>| #[trigger] by_executable(apps).contains_key(k) == visible@.contains_key(k)
        by {
        if visible@.contains_key(k) {
            let i = choose|i: int| 0 <= i < visible.keys().len() && visible.keys()[i] == k;
            assert(visible.keys()[i] == apps[i].executable@);
        }
        if by_executable(apps).contains_key(k) {
            let i = choose|i: int| 0 <= i < apps.len() && apps[i].executable@ == k;
            assert(visible.keys()[i] == apps[i].executable@);
        }
    }
    assert forall|k: Seq<char>| by_executable(apps).contains_key(k) implies #[trigger] by_executable(
        apps,
    )[k] == visible@[k] by {
        let i = choose|i: int| 0 <= i < apps.len() && apps[i].executable@ == k;
        assert(visible.keys()[i] == apps[i].executable@);
        lemma_by_executable_at(apps, i);
    }
    assert(by_executable(apps) =~= visible@);
}

/// Counting sightings forgets nothing and takes no time away: every saved
/// executable stays saved with at least its total, and every sighted executable is
/// saved afterwards.
pub proof fn law_sightings_keep_saved(saved: Map<Seq<char>, Application>, apps: Seq<Application>)
    requires
        sightings_fit(saved, apps),
    ensures
        forall|k: Seq<char>|
            #[trigger] saved.contains_key(k) ==> with_sightings(saved, apps).contains_key(k)
                && with_sightings(saved, apps)[k].usage.total_time.secs
                >= saved[k].usage.total_time.secs,
        forall|i: int|
            0 <= i < apps.len() ==> with_sightings(saved, apps).contains_key(
                #[trigger] apps[i].executable@,
            ),
    decreases apps.len(),
{
    if apps.len() > 0 {
        let a0 = apps[0];
        let rest = apps.drop_first();
        let s1 = with_sighting(saved, a0);
        law_sightings_keep_saved(s1, rest);
        assert forall|k: Seq<char>| #[trigger] saved.contains_key(k) implies s1.contains_key(k)
            && s1[k].usage.total_time.secs >= saved[k].usage.total_time.secs by {
        }
        assert(s1.contains_key(a0.executable@));
        assert forall|i: int| 0 <= i < apps.len() implies with_sightings(saved, apps).contains_key(
            #[trigger] apps[i].executable@,
        ) by {
            if i > 0 {
                assert(apps[i] == rest[i - 1]);
            }
        }
    }
}

/// Every application is filed under its own executable.
pub open spec fn filed_by_executable(m: Map<Seq<char>, Application>) -> bool {
    forall|k: Seq<char>| #[trigger] m.contains_key(k) ==> m[k].executable@ == k
}

/// Counting sightings keeps the saved applications filed under their own
/// executables.
pub proof fn law_sightings_keep_filing(saved: Map<Seq<char>, Application>, apps: Seq<Application>)
    requires
        filed_by_executable(saved),
    ensures
        filed_by_executable(with_sightings(saved, apps)),
    decreases apps.len(),
{
    if apps.len() > 0 {
        let s1 = with_sighting(saved, apps[0]);
        assert(filed_by_executable(s1));
        law_sightings_keep_filing(s1, apps.drop_first());
    }
}

/// Each second of tracking adds exactly one second to every saved executable that
/// is visible, whichever process, title or display name shows it, keeping its
/// nanoseconds; leaves every saved executable that is not visible as it was; and
/// saves every newly visible executable as it was seen.
pub proof fn law_visible_adds_one_second(saved: Map<Seq<char>, Application>, visible: &ApplicationMap)
    requires
        visible.wf(),
        visible.keyed_by_executable(),
        sightings_fit(saved, visible.values()),
    ensures
        forall|k: Seq<char>|
            #[trigger] saved.contains_key(k) && visible@.contains_key(k) ==> {
                let after = with_sightings(saved, visible.values());
                &&& after.contains_key(k)
                &&& after[k].usage.total_time.secs == saved[k].usage.total_time.secs + 1
                &&& after[k].usage.total_time.nanos == saved[k].usage.total_time.nanos
                &&& after[k].executable == saved[k].executable
                &&& after[k].title == saved[k].title
                &&& after[k].pid == saved[k].pid
                &&& after[k].display_name == (if saved[k].display_name@.len() == 0 {
                    visible@[k].display_name
                } else {
                    saved[k].display_name
                })
            },
        forall|k: Seq<char>|
            #[trigger] saved.contains_key(k) && !visible@.contains_key(k) ==> with_sightings(
                saved,
                visible.values(),
            ).contains_key(k) && with_sightings(saved, visible.values())[k] == saved[k],
        forall|k: Seq<char>|
            !saved.contains_key(k) && #[trigger] visible@.contains_key(k) ==> with_sightings(
                saved,
                visible.values(),
            ).contains_key(k) && with_sightings(saved, visible.values())[k] == visible@[k],
        forall|k: Seq<char>|
            #[trigger] with_sightings(saved, visible.values()).contains_key(k) ==> saved.contains_key(k)
                || visible@.contains_key(k),
{
    law_sightings_merge_by_key(saved, visible);
    law_sightings_fit_by_key(saved, visible);
}

/// A stop request always stops (after saving); otherwise the tracker saves exactly
/// when at least sixty whole seconds have passed since the last save, and goes on
/// without saving before that.
pub proof fn law_tick_saves_every_minute(stop_requested: bool, since_last_save: TimeSpan)
    ensures
        stop_requested ==> action_after_tick(stop_requested, since_last_save)
            == TrackerAction::SaveAndStop,
        !stop_requested && since_last_save.secs >= 60 ==> action_after_tick(
            stop_requested,
            since_last_save,
        ) == TrackerAction::Save,
        !stop_requested && since_last_save.secs < 60 ==> action_after_tick(
            stop_requested,
            since_last_save,
        ) == TrackerAction::Continue,
{
}

} // verus!
