//! Lifecycle scripts of an installed package: which run and in what
//! order, the environment they get, and the refusals around them.

use vstd::prelude::*;
use crate::order::pairs_view;
use crate::text::{str_to_string, string_append};

verus! {

/// The install-time scripts of a package's manifest.
#[derive(Debug, Clone)]
pub struct PackageScripts {
    pub preinstall: Option<String>,
    pub install: Option<String>,
    pub postinstall: Option<String>,
}

pub open spec fn named(name: Seq<char>, script: Option<String>) -> Seq<(Seq<char>, Seq<char>)> {
    match script {
        Some(s) => seq![(name, s@)],
        None => Seq::empty(),
    }
}

/// The scripts that run, in order: `preinstall`, `install`, `postinstall`,
/// each when the manifest has it.
pub open spec fn spec_scripts_to_run(s: PackageScripts) -> Seq<(Seq<char>, Seq<char>)> {
    named("preinstall"@, s.preinstall) + named("install"@, s.install) + named(
        "postinstall"@,
        s.postinstall,
    )
}

/// Runs the lifecycle scripts of installed packages.
pub struct LifecycleRunner;

impl LifecycleRunner {
    fn push_named(out: &mut Vec<(String, String)>, name: &str, script: &Option<String>)
        ensures
            pairs_view(final(out)@) == pairs_view(old(out)@) + named(name@, *script),
    {
        match script {
            Some(s) => {
                let ghost before = out@;
                out.push((str_to_string(name), str_to_string(s.as_str())));
                proof {
                    assert(pairs_view(out@) =~= pairs_view(before) + named(name@, *script));
                }
            },
            None => {
                proof {
                    assert(pairs_view(out@) =~= pairs_view(out@) + named(name@, *script));
                }
            },
        }
    }

    /// The (name, script) pairs to run, in order (see
    /// [`spec_scripts_to_run`]).
    pub fn scripts_to_run(scripts: &PackageScripts) -> (r: Vec<(String, String)>)
        ensures
            pairs_view(r@) == spec_scripts_to_run(*scripts),
    {
        let mut out: Vec<(String, String)> = Vec::new();
        proof {
            assert(pairs_view(out@) =~= Seq::<(Seq<char>, Seq<char>)>::empty());
        }
        Self::push_named(&mut out, "preinstall", &scripts.preinstall);
        Self::push_named(&mut out, "install", &scripts.install);
        Self::push_named(&mut out, "postinstall", &scripts.postinstall);
        proof {
            let e = Seq::<(Seq<char>, Seq<char>)>::empty();
            let a = named("preinstall"@, scripts.preinstall);
            let b = named("install"@, scripts.install);
            let c = named("postinstall"@, scripts.postinstall);
            assert(e + a + b + c =~= a + b + c);
        }
        out
    }

    /// The environment of a script: `PATH`, `INIT_CWD` (the project root)
    /// and `npm_config_node_gyp`, then the assignments that lead the
    /// script's command line.
    pub fn script_env(path_env: &str, project_root: &str, assignments: &Vec<(String, String)>) -> (r: Vec<
        (String, String),
    >)
        ensures
            pairs_view(r@) == seq![
                ("PATH"@, path_env@),
                ("INIT_CWD"@, project_root@),
                ("npm_config_node_gyp"@, "node-gyp"@),
            ] + pairs_view(assignments@),
    {
        let mut out: Vec<(String, String)> = Vec::new();
        out.push((str_to_string("PATH"), str_to_string(path_env)));
        out.push((str_to_string("INIT_CWD"), str_to_string(project_root)));
        out.push((str_to_string("npm_config_node_gyp"), str_to_string("node-gyp")));
        let ghost head = pairs_view(out@);
        let mut i: usize = 0;
        proof {
            assert(head + pairs_view(assignments@).take(0) =~= head);
        }
        while i < assignments.len()
            invariant
                i <= assignments.len(),
                pairs_view(out@) == head + pairs_view(assignments@).take(i as int),
            decreases assignments.len() - i,
        {
            let ghost before = out@;
            out.push(
                (str_to_string(assignments[i].0.as_str()), str_to_string(assignments[i].1.as_str())),
            );
            proof {
                assert(pairs_view(out@) =~= pairs_view(before).push(pairs_view(assignments@)[i as int]));
                assert(pairs_view(assignments@).take(i + 1) =~= pairs_view(assignments@).take(
                    i as int,
                ).push(pairs_view(assignments@)[i as int]));
            }
            i = i + 1;
        }
        proof {
            assert(pairs_view(assignments@).take(assignments.len() as int) =~= pairs_view(
                assignments@,
            ));
        }
        out
    }

    /// The refusal of a script that calls another package manager.
    pub fn wrapper_refusal(manifest_path: &str, tool: &str) -> (r: String)
        ensures
            r@ == "lifecycle script in '"@ + manifest_path@ + "' delegates to '"@ + tool@
                + "'; core-web refuses package-manager wrappers inside lifecycle execution"@,
    {
        let mut m = str_to_string("lifecycle script in '");
        string_append(&mut m, manifest_path);
        string_append(&mut m, "' delegates to '");
        string_append(&mut m, tool);
        string_append(&mut m, "'; core-web refuses package-manager wrappers inside lifecycle execution");
        m
    }

    /// The error of a script whose command line is not supported.
    pub fn unsupported_script_error(name: &str, reason: &str) -> (r: String)
        ensures
            r@ == "unsupported lifecycle script '"@ + name@ + "': "@ + reason@,
    {
        let mut m = str_to_string("unsupported lifecycle script '");
        string_append(&mut m, name);
        string_append(&mut m, "': ");
        string_append(&mut m, reason);
        m
    }

    /// The error of a script that failed.
    pub fn script_failed_error(name: &str, reason: &str) -> (r: String)
        ensures
            r@ == "lifecycle script '"@ + name@ + "' failed: "@ + reason@,
    {
        let mut m = str_to_string("lifecycle script '");
        string_append(&mut m, name);
        string_append(&mut m, "' failed: ");
        string_append(&mut m, reason);
        m
    }
}

} // verus!
