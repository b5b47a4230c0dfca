//! The static application table: reserved ports, working directories
//! and launch commands of the supervised sibling applications, and the
//! path and environment computations the launcher performs around a
//! spawn.

use vstd::prelude::*;

verus! {

use crate::errors::HubError;
use crate::text::{contains_seq, contains_chars, str_eq, views_of};

/// The reserved dev-server port table as a mathematical function of
/// the identifier.
pub open spec fn spec_app_port(id: Seq<char>) -> Option<u16> {
    if id == "launcher"@ {
        Some(1424u16)
    } else if id == "mql_fixer"@ {
        Some(1426u16)
    } else if id == "copytrader"@ {
        Some(1427u16)
    } else if id == "dashboard"@ {
        Some(1429u16)
    } else if id == "charting"@ || id == "backtester"@ {
        Some(1430u16)
    } else if id == "quantum_bt"@ {
        Some(1431u16)
    } else {
        None
    }
}

/// Returns the reserved dev-server port for each supervised
/// application. Each application has a unique reserved port; a blocked
/// port is a zombie from an earlier run.
pub fn get_app_port(app_id: &str) -> (port: Option<u16>)
    ensures
        port == spec_app_port(app_id@),
{
    if str_eq(app_id, "launcher") {
        Some(1424)
    } else if str_eq(app_id, "mql_fixer") {
        Some(1426)
    } else if str_eq(app_id, "copytrader") {
        Some(1427)
    } else if str_eq(app_id, "dashboard") {
        Some(1429)
    } else if str_eq(app_id, "charting") || str_eq(app_id, "backtester") {
        Some(1430)
    } else if str_eq(app_id, "quantum_bt") {
        Some(1431)
    } else {
        None
    }
}

/// The working-directory name of each launchable application; `None`
/// marks an identifier the launcher does not know.
pub open spec fn spec_app_dir(id: Seq<char>) -> Option<Seq<char>> {
    if id == "quantum_bt"@ {
        Some("quantum_bt_daavfx"@)
    } else if id == "charting"@ || id == "backtester"@ {
        Some("charting_daavfx"@)
    } else if id == "copytrader"@ {
        Some("copytrader_ui"@)
    } else if id == "dashboard"@ {
        Some("dashboard/logic-canvas-main"@)
    } else if id == "mql_fixer"@ {
        Some("rust_mql_fixer"@)
    } else {
        None
    }
}

/// Whether the launcher can launch this identifier.
pub open spec fn is_known_app(id: Seq<char>) -> bool {
    spec_app_dir(id) is Some
}

/// Every launchable application is started by the same command line.
pub open spec fn spec_app_command() -> Seq<char> {
    "npm run tauri dev"@
}

/// Resolves an identifier to its working-directory name and launch
/// command; `None` exactly when the identifier is unknown.
pub fn app_launch_spec(app_id: &str) -> (r: Option<(String, String)>)
    ensures
        r matches Some(p) ==> {
            &&& is_known_app(app_id@)
            &&& Some(p.0@) == spec_app_dir(app_id@)
            &&& p.1@ == spec_app_command()
        },
        r is None ==> !is_known_app(app_id@),
{
    let dir: Option<&str> = if str_eq(app_id, "quantum_bt") {
        Some("quantum_bt_daavfx")
    } else if str_eq(app_id, "charting") || str_eq(app_id, "backtester") {
        Some("charting_daavfx")
    } else if str_eq(app_id, "copytrader") {
        Some("copytrader_ui")
    } else if str_eq(app_id, "dashboard") {
        Some("dashboard/logic-canvas-main")
    } else if str_eq(app_id, "mql_fixer") {
        Some("rust_mql_fixer")
    } else {
        None
    };
    match dir {
        Some(d) => Some((d.to_owned(), "npm run tauri dev".to_owned())),
        None => None,
    }
}

/// Two legacy identifiers kept for backward compatibility: launching
/// a terminal is a no-op stub that always succeeds.
pub fn launch_mt4() -> (r: Result<(), HubError>)
    ensures
        r is Ok,
{
    Ok(())
}

/// See `launch_mt4`.
pub fn launch_mt5() -> (r: Result<(), HubError>)
    ensures
        r is Ok,
{
    Ok(())
}

/// Whether some path component mentions a build-output directory,
/// which marks a development build living deep inside the source tree.
pub open spec fn spec_has_target_component(comps: Seq<Seq<char>>) -> bool {
    exists|i: int| 0 <= i < comps.len() && contains_seq(#[trigger] comps[i], "target"@)
}

/// Where the tree of sibling applications lives, given the components
/// of the running executable's directory: a development build climbs
/// out of its four levels of build directories, a production install
/// climbs one level; `None` when there is nothing to climb out of.
pub open spec fn spec_apps_base(comps: Seq<Seq<char>>) -> Option<Seq<Seq<char>>> {
    if spec_has_target_component(comps) {
        if comps.len() >= 4 {
            Some(comps.take(comps.len() - 4))
        } else {
            None
        }
    } else {
        if comps.len() >= 1 {
            Some(comps.take(comps.len() - 1))
        } else {
            None
        }
    }
}

/// Resolves the base directory of the sibling applications from the
/// components of the executable's directory.
pub fn get_apps_base_path(exe_dir: &Vec<String>) -> (r: Option<Vec<String>>)
    ensures
        r matches Some(base) ==> spec_apps_base(views_of(exe_dir@)) == Some(views_of(base@)),
        r is None ==> spec_apps_base(views_of(exe_dir@)) is None,
{
    let pattern = target_pattern();
    let ghost comps = views_of(exe_dir@);
    let mut has_target = false;
    let mut i: usize = 0;
    while i < exe_dir.len()
        invariant
            0 <= i <= exe_dir@.len(),
            comps == views_of(exe_dir@),
            pattern@ == "target"@,
            has_target == exists|k: int| 0 <= k < i && contains_seq(#[trigger] comps[k], "target"@),
        decreases exe_dir@.len() - i,
    {
        if contains_chars(exe_dir[i].as_str(), &pattern) {
            proof {
                assert(views_of(exe_dir@)[i as int] == exe_dir@[i as int]@);
                assert(contains_seq(comps[i as int], "target"@));
            }
            has_target = true;
        }
        proof {
            assert(views_of(exe_dir@)[i as int] == exe_dir@[i as int]@);
        }
        i = i + 1;
    }
    assert(has_target == spec_has_target_component(comps));
    let keep: usize = if has_target {
        if exe_dir.len() >= 4 {
            exe_dir.len() - 4
        } else {
            return None;
        }
    } else {
        if exe_dir.len() >= 1 {
            exe_dir.len() - 1
        } else {
            return None;
        }
    };
    let mut base: Vec<String> = Vec::new();
    let mut j: usize = 0;
    while j < keep
        invariant
            0 <= j <= keep <= exe_dir@.len(),
            comps == views_of(exe_dir@),
            views_of(base@) =~~= comps.take(j as int),
        decreases keep - j,
    {
        let ghost prev: Seq<String> = base@;
        base.push(exe_dir[j].clone());
        proof {
            assert(views_of(prev).len() == j);
            assert(base@ == prev.push(exe_dir@[j as int]));
            assert forall|k: int| 0 <= k < j + 1 implies views_of(base@)[k] == comps.take(
                j + 1,
            )[k] by {
                assert(views_of(base@)[k] == base@[k]@);
                assert(views_of(exe_dir@)[k] == exe_dir@[k]@);
                if k < j {
                    assert(base@[k] == prev[k]);
                    assert(views_of(prev)[k] == prev[k]@);
                    assert(views_of(prev)[k] == comps.take(j as int)[k]);
                }
            }
            assert(views_of(base@) =~~= comps.take(j + 1));
        }
        j = j + 1;
    }
    Some(base)
}

/// The search pattern for build-output directories.
fn target_pattern() -> (p: Vec<char>)
    ensures
        p@ == "target"@,
{
    let mut p: Vec<char> = Vec::new();
    p.push('t');
    p.push('a');
    p.push('r');
    p.push('g');
    p.push('e');
    p.push('t');
    proof {
        reveal_strlit("target");
        assert(p@ =~= "target"@);
    }
    p
}

/// The `PATH` handed to a spawned child: the caller's own search path
/// with the toolchain directory under the user profile appended, so
/// the child resolves its build tools regardless of how the parent
/// shell was initialized.
pub open spec fn spec_child_path_env(path_val: Seq<char>, userprofile: Seq<char>) -> Seq<char> {
    path_val + ";"@ + userprofile + "\\.cargo\\bin"@
}

pub fn child_path_env(path_val: &str, userprofile: &str) -> (r: String)
    ensures
        r@ == spec_child_path_env(path_val@, userprofile@),
{
    let mut m = path_val.to_owned();
    m.append(";");
    m.append(userprofile);
    m.append("\\.cargo\\bin");
    assert(m@ =~= spec_child_path_env(path_val@, userprofile@));
    m
}

} // verus!
