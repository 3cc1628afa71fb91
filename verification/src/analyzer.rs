//! Which language analyzers run on a project, how they are invoked, and how
//! their models are combined.
use vstd::prelude::*;
use vstd::string::*;
use crate::text::{join_path, path_joined, push_str};
use crate::ucm::UnifiedCodeModel;

verus! {

/// A sidecar invocation: program, arguments and working directory.
pub struct AnalyzerCommand {
    pub program: String,
    pub args: Vec<String>,
    pub cwd: String,
}

/// Which analyzers a project needs: Go when it has `go.mod`, TypeScript when
/// it has `package.json` or `tsconfig.json`.
pub fn analyzers_for(has_go_mod: bool, has_package_json: bool, has_tsconfig: bool) -> (r: (bool, bool))
    ensures
        r == (has_go_mod, has_package_json || has_tsconfig),
{
    (has_go_mod, has_package_json || has_tsconfig)
}

/// The Go analyzer: its prebuilt binary when there is one, else `go run .`,
/// both in `<analyzers>/go` and pointed at the project with `-dir=<root>`.
pub fn go_analyzer_command(analyzers_dir: &str, root: &str, binary_exists: bool) -> (c: AnalyzerCommand)
    ensures
        c.cwd@ == path_joined(analyzers_dir@, "go"@),
        binary_exists ==> c.program@ == path_joined(c.cwd@, "graphloom-analyze"@)
            && crate::validate::views(c.args@) == seq!["-dir="@ + root@],
        !binary_exists ==> c.program@ == "go"@
            && crate::validate::views(c.args@) == seq!["run"@, "."@, "-dir="@ + root@],
{
    let dir = join_path(analyzers_dir, "go");
    let mut flag = String::from_str("-dir=");
    push_str(&mut flag, root);
    let mut args: Vec<String> = Vec::new();
    if binary_exists {
        let binary = join_path(dir.as_str(), "graphloom-analyze");
        args.push(flag);
        assert(crate::validate::views(args@) =~= seq!["-dir="@ + root@]);
        AnalyzerCommand { program: binary, args, cwd: dir }
    } else {
        args.push(String::from_str("run"));
        args.push(String::from_str("."));
        args.push(flag);
        assert(crate::validate::views(args@) =~= seq!["run"@, "."@, "-dir="@ + root@]);
        AnalyzerCommand { program: String::from_str("go"), args, cwd: dir }
    }
}

/// The TypeScript analyzer: `node <analyzers>/ts/dist/analyze.js <root>` in `<analyzers>/ts`.
pub fn ts_analyzer_command(analyzers_dir: &str, root: &str) -> (c: AnalyzerCommand)
    ensures
        c.cwd@ == path_joined(analyzers_dir@, "ts"@),
        c.program@ == "node"@,
        crate::validate::views(c.args@) == seq![path_joined(c.cwd@, "dist/analyze.js"@), root@],
{
    let dir = join_path(analyzers_dir, "ts");
    let script = join_path(dir.as_str(), "dist/analyze.js");
    let mut args: Vec<String> = Vec::new();
    args.push(script);
    args.push(root.to_owned());
    assert(crate::validate::views(args@) =~= seq![path_joined(dir@, "dist/analyze.js"@), root@]);
    AnalyzerCommand { program: String::from_str("node"), args, cwd: dir }
}

/// The concatenation of one list field over all models.
pub open spec fn concat_all<T>(parts: Seq<Seq<T>>) -> Seq<T>
    decreases parts.len(),
{
    if parts.len() == 0 {
        seq![]
    } else {
        concat_all(parts.drop_last()) + parts.last()
    }
}

/// `m` is the models put together, each list in model order, language "mixed".
pub open spec fn merged(models: Seq<UnifiedCodeModel>, m: UnifiedCodeModel) -> bool {
    &&& m.language@ == "mixed"@
    &&& m.packages@ == concat_all(models.map_values(|x: UnifiedCodeModel| x.packages@))
    &&& m.symbols@ == concat_all(models.map_values(|x: UnifiedCodeModel| x.symbols@))
    &&& m.calls@ == concat_all(models.map_values(|x: UnifiedCodeModel| x.calls@))
    &&& m.effects@ == concat_all(models.map_values(|x: UnifiedCodeModel| x.effects@))
    &&& m.entities@ == concat_all(models.map_values(|x: UnifiedCodeModel| x.entities@))
    &&& m.errors@ == concat_all(models.map_values(|x: UnifiedCodeModel| x.errors@))
}

/// Puts the models of several analyzers into one.
pub fn merge(models: Vec<UnifiedCodeModel>) -> (m: UnifiedCodeModel)
    ensures
        merged(models@, m),
{
    let ghost orig = models@;
    let mut m = UnifiedCodeModel {
        language: String::from_str("mixed"),
        packages: Vec::new(),
        symbols: Vec::new(),
        calls: Vec::new(),
        effects: Vec::new(),
        entities: Vec::new(),
        errors: Vec::new(),
    };
    let mut pending = models;
    assert(orig.len() == pending.len());
    let mut k: usize = 0;
    assert(orig.take(0).map_values(|x: UnifiedCodeModel| x.packages@) =~= Seq::<Seq<crate::ucm::Package>>::empty());
    assert(merged(orig.take(0), m));
    while pending.len() > 0
        invariant
            k <= orig.len(),
            orig.len() <= usize::MAX,
            pending@ == orig.skip(k as int),
            m.language@ == "mixed"@,
            merged(orig.take(k as int), m),
        decreases pending@.len(),
    {
        assert(orig.skip(k as int).len() > 0);
        let mut x = pending.remove(0);
        assert(x == orig[k as int]);
        let ghost t = orig.take((k + 1) as int);
        assert(t.drop_last() == orig.take(k as int));
        assert(t.last() == x);
        m.packages.append(&mut x.packages);
        m.symbols.append(&mut x.symbols);
        m.calls.append(&mut x.calls);
        m.effects.append(&mut x.effects);
        m.entities.append(&mut x.entities);
        m.errors.append(&mut x.errors);
        assert(t.map_values(|y: UnifiedCodeModel| y.packages@).drop_last() =~= orig.take(k as int).map_values(|y: UnifiedCodeModel| y.packages@));
        assert(t.map_values(|y: UnifiedCodeModel| y.symbols@).drop_last() =~= orig.take(k as int).map_values(|y: UnifiedCodeModel| y.symbols@));
        assert(t.map_values(|y: UnifiedCodeModel| y.calls@).drop_last() =~= orig.take(k as int).map_values(|y: UnifiedCodeModel| y.calls@));
        assert(t.map_values(|y: UnifiedCodeModel| y.effects@).drop_last() =~= orig.take(k as int).map_values(|y: UnifiedCodeModel| y.effects@));
        assert(t.map_values(|y: UnifiedCodeModel| y.entities@).drop_last() =~= orig.take(k as int).map_values(|y: UnifiedCodeModel| y.entities@));
        assert(t.map_values(|y: UnifiedCodeModel| y.errors@).drop_last() =~= orig.take(k as int).map_values(|y: UnifiedCodeModel| y.errors@));
        k = k + 1;
        assert(pending@ =~= orig.skip(k as int));
    }
    assert(orig.take(k as int) =~= orig);
    m
}

pub open spec fn msg_no_project() -> Seq<char> {
    "no Go or TypeScript project detected (need go.mod or package.json)"@
}

/// The model of a project from its analyzers' models: an error without any,
/// the model itself for one, the merged model for several.
pub fn combine_models(models: Vec<UnifiedCodeModel>) -> (r: Result<UnifiedCodeModel, String>)
    ensures
        models@.len() == 0 ==> (r matches Err(e) && e@ == msg_no_project()),
        models@.len() == 1 ==> r == Ok::<UnifiedCodeModel, String>(models@[0]),
        models@.len() > 1 ==> (r matches Ok(m) && merged(models@, m)),
{
    if models.len() == 0 {
        Err(String::from_str("no Go or TypeScript project detected (need go.mod or package.json)"))
    } else if models.len() == 1 {
        let mut models = models;
        Ok(models.remove(0))
    } else {
        Ok(merge(models))
    }
}

} // verus!
