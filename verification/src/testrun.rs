//! Finding the commands that run a project's tests.
use vstd::prelude::*;
use vstd::string::*;
use crate::order::{first_match, lemma_first_match_prefix, lemma_first_match_step};
use crate::text::{opt_view, push_str};

verus! {

#[derive(Clone, Copy, PartialEq, Eq, Structural, Debug)]
pub enum TestKind {
    Unit,
    Integration,
    E2e,
}

/// The shell commands for each kind of test, where one was found.
pub struct TestCommands {
    pub unit: Option<String>,
    pub integration: Option<String>,
    pub e2e: Option<String>,
}

/// What a test run printed and whether it passed.
pub struct TestRunResult {
    pub success: bool,
    pub output: String,
    pub command: String,
}

/// The `scripts` of a `package.json` text: `None` when the text is not JSON,
/// `Some(None)` when it has no `scripts` object, else each entry's name and
/// whether its value is a string.
pub uninterp spec fn package_scripts(raw: Seq<char>) -> Option<Option<Seq<(Seq<char>, bool)>>>;

pub open spec fn entry_views(v: Seq<(String, bool)>) -> Seq<(Seq<char>, bool)> {
    v.map_values(|e: (String, bool)| (e.0@, e.1))
}

/// Reads the `scripts` object of a `package.json` text with
/// `serde_json::from_str` and `Value::as_object`, listing each entry's name
/// and `Value::is_string`. The contract claims only that the outcome is a
/// function of the text.
#[verifier::external_body]
fn read_package_scripts(raw: &str) -> (r: Option<Option<Vec<(String, bool)>>>)
    ensures
        match r {
            Some(Some(v)) => package_scripts(raw@) == Some(Some(entry_views(v@))),
            Some(None) => package_scripts(raw@) == Some(None::<Seq<(Seq<char>, bool)>>),
            None => package_scripts(raw@) is None,
        },
{
    let json = serde_json::from_str::<serde_json::Value>(raw).ok()?;
    Some(json["scripts"].as_object().map(|map| map.iter().map(|(name, value)| (name.clone(), value.is_string())).collect()))
}

/// The scripts the commands are picked from: none when the text is not
/// JSON; no entries when it has no `scripts` object.
pub open spec fn scripts_of(parsed: Option<Option<Seq<(Seq<char>, bool)>>>) -> Option<Seq<(Seq<char>, bool)>> {
    match parsed {
        None => None,
        Some(None) => Some(Seq::empty()),
        Some(Some(es)) => Some(es),
    }
}

/// Script `name` exists and is a string.
pub open spec fn script_is_string(entries: Seq<(Seq<char>, bool)>, name: Seq<char>) -> bool {
    match first_match(entries, |e: (Seq<char>, bool)| e.0 == name) {
        Some(i) => entries[i].1,
        None => false,
    }
}

/// `pnpm run <name>` for the first of `names` that is a string script.
pub open spec fn pick_script(entries: Seq<(Seq<char>, bool)>, names: Seq<Seq<char>>) -> Option<Seq<char>> {
    match first_match(names, |n: Seq<char>| script_is_string(entries, n)) {
        Some(i) => Some("pnpm run "@ + names[i]),
        None => None,
    }
}

/// The commands found for a project: `package.json` scripts first, then
/// `cargo test` for a Cargo project, then `go test` for a Go module.
pub open spec fn detected(scripts: Option<Seq<(Seq<char>, bool)>>, has_cargo_toml: bool, has_go_mod: bool) -> (Option<Seq<char>>, Option<Seq<char>>, Option<Seq<char>>) {
    let (u0, i0, e0) = match scripts {
        Some(es) => (
            pick_script(es, seq!["test:unit"@, "test"@]),
            pick_script(es, seq!["test:integration"@]),
            pick_script(es, seq!["test:e2e"@, "e2e"@]),
        ),
        None => (None, None, None),
    };
    let u1 = if u0 is None && has_cargo_toml { Some("cargo test"@) } else { u0 };
    let i1 = if i0 is None && has_cargo_toml { Some("cargo test --test '*'"@) } else { i0 };
    let u2 = if u1 is None && has_go_mod { Some("go test ./..."@) } else { u1 };
    let i2 = if i1 is None && has_go_mod { Some("go test -tags=integration ./..."@) } else { i1 };
    (u2, i2, e0)
}

fn script_is_string_in(entries: &Vec<(String, bool)>, name: &str) -> (b: bool)
    ensures
        b == script_is_string(entry_views(entries@), name@),
{
    let ghost es = entry_views(entries@);
    let ghost p = |e: (Seq<char>, bool)| e.0 == name@;
    let key = name.to_owned();
    let mut i: usize = 0;
    while i < entries.len()
        invariant
            0 <= i <= entries@.len(),
            es == entry_views(entries@),
            key@ == name@,
            p == (|e: (Seq<char>, bool)| e.0 == name@),
            first_match(es.take(i as int), p) is None,
        decreases entries@.len() - i,
    {
        if entries[i].0 == key {
            proof {
                lemma_first_match_prefix(es, p, i as int);
            }
            return entries[i].1;
        }
        proof {
            lemma_first_match_step(es, p, i as int);
        }
        i = i + 1;
    }
    assert(es.take(entries@.len() as int) =~= es);
    false
}

fn run_command(name: &str) -> (s: String)
    ensures
        s@ == "pnpm run "@ + name@,
{
    let mut s = String::from_str("pnpm run ");
    push_str(&mut s, name);
    s
}

fn pick2(entries: &Vec<(String, bool)>, a: &str, b: &str) -> (r: Option<String>)
    ensures
        opt_view(r) == pick_script(entry_views(entries@), seq![a@, b@]),
{
    let ghost names = seq![a@, b@];
    let ghost p = |n: Seq<char>| script_is_string(entry_views(entries@), n);
    if script_is_string_in(entries, a) {
        proof {
            assert(names.take(0) =~= Seq::<Seq<char>>::empty());
            lemma_first_match_prefix(names, p, 0);
        }
        Some(run_command(a))
    } else if script_is_string_in(entries, b) {
        proof {
            assert(names.take(0) =~= Seq::<Seq<char>>::empty());
            lemma_first_match_step(names, p, 0);
            lemma_first_match_prefix(names, p, 1);
        }
        Some(run_command(b))
    } else {
        proof {
            assert(names.take(0) =~= Seq::<Seq<char>>::empty());
            lemma_first_match_step(names, p, 0);
            lemma_first_match_step(names, p, 1);
            assert(names.take(2) =~= names);
        }
        None
    }
}

fn pick1(entries: &Vec<(String, bool)>, a: &str) -> (r: Option<String>)
    ensures
        opt_view(r) == pick_script(entry_views(entries@), seq![a@]),
{
    let ghost names = seq![a@];
    let ghost p = |n: Seq<char>| script_is_string(entry_views(entries@), n);
    assert(names.take(0) =~= Seq::<Seq<char>>::empty());
    if script_is_string_in(entries, a) {
        proof {
            lemma_first_match_prefix(names, p, 0);
        }
        Some(run_command(a))
    } else {
        proof {
            lemma_first_match_step(names, p, 0);
            assert(names.take(1) =~= names);
        }
        None
    }
}

/// The test commands of a project, from its `package.json` text (if it has
/// one) and whether it has `Cargo.toml` and `go.mod`.
pub fn detect(package_json: Option<&str>, has_cargo_toml: bool, has_go_mod: bool) -> (c: TestCommands)
    ensures
        (opt_view(c.unit), opt_view(c.integration), opt_view(c.e2e)) == detected(
            match package_json {
                Some(raw) => scripts_of(package_scripts(raw@)),
                None => None,
            },
            has_cargo_toml,
            has_go_mod,
        ),
{
    let scripts: Option<Vec<(String, bool)>> = match package_json {
        Some(raw) => match read_package_scripts(raw) {
            None => None,
            Some(None) => Some(Vec::new()),
            Some(Some(entries)) => Some(entries),
        },
        None => None,
    };
    assert(match scripts {
        Some(v) => Some(entry_views(v@)),
        None => None::<Seq<(Seq<char>, bool)>>,
    } == match package_json {
        Some(raw) => scripts_of(package_scripts(raw@)),
        None => None,
    }) by {
        if let Some(v) = scripts {
            if v@.len() == 0 {
                assert(entry_views(v@) =~= Seq::<(Seq<char>, bool)>::empty());
            }
        }
    }
    let mut c = TestCommands { unit: None, integration: None, e2e: None };
    if let Some(entries) = &scripts {
        c.unit = pick2(entries, "test:unit", "test");
        c.integration = pick1(entries, "test:integration");
        c.e2e = pick2(entries, "test:e2e", "e2e");
    }
    if has_cargo_toml {
        if c.unit.is_none() {
            c.unit = Some(String::from_str("cargo test"));
        }
        if c.integration.is_none() {
            c.integration = Some(String::from_str("cargo test --test '*'"));
        }
    }
    if has_go_mod {
        if c.unit.is_none() {
            c.unit = Some(String::from_str("go test ./..."));
        }
        if c.integration.is_none() {
            c.integration = Some(String::from_str("go test -tags=integration ./..."));
        }
    }
    c
}

/// The command that runs tests of `kind`, if one was found.
pub fn command_for(cmds: TestCommands, kind: TestKind) -> (r: Option<String>)
    ensures
        r == match kind {
            TestKind::Unit => cmds.unit,
            TestKind::Integration => cmds.integration,
            TestKind::E2e => cmds.e2e,
        },
{
    match kind {
        TestKind::Unit => cmds.unit,
        TestKind::Integration => cmds.integration,
        TestKind::E2e => cmds.e2e,
    }
}

/// The result of a finished test process: whether it succeeded, what it
/// wrote to standard output followed by what it wrote to standard error, and
/// the command it ran.
pub fn run_result(success: bool, stdout: String, stderr: &str, command: String) -> (r: TestRunResult)
    ensures
        r.success == success,
        r.output@ == stdout@ + stderr@,
        r.command == command,
{
    let mut output = stdout;
    push_str(&mut output, stderr);
    TestRunResult { success, output, command }
}

} // verus!
