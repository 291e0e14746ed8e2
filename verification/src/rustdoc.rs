//! How rustdoc is asked for the JSON of a crate, and where it leaves it.

use vstd::prelude::*;

use crate::error::ExtractError;
use crate::json::{parse_json, parsed, Json};
use crate::names::name_views;
use crate::text::{chars_of, same};

verus! {

/// `text` with every hyphen replaced by an underscore.
pub open spec fn underscored(text: Seq<char>) -> Seq<char> {
    text.map_values(
        |c: char|
            if c == '-' {
                '_'
            } else {
                c
            },
    )
}

/// The name of the library of a package.
pub open spec fn library_of(package: Seq<char>) -> Seq<char> {
    if package == "stackslib"@ {
        "blockstack_lib"@
    } else {
        underscored(package)
    }
}

/// The directory that rustdoc writes to, where cargo has the target directory `cargo_target_dir`.
pub open spec fn target_dir_of(cargo_target_dir: Option<Seq<char>>) -> Seq<char> {
    match cargo_target_dir {
        Some(dir) => dir + "/rustdoc-json"@,
        None => "target"@ + "/rustdoc-json"@,
    }
}

/// The file that holds the JSON of a library.
pub open spec fn json_file_of(target_dir: Seq<char>, library: Seq<char>) -> Seq<char> {
    target_dir + "/doc/"@ + library + ".json"@
}

/// The arguments with which cargo writes the JSON of a package.
pub open spec fn arguments_of(package: Seq<char>, target_dir: Seq<char>) -> Seq<Seq<char>> {
    seq![
        "+nightly"@,
        "rustdoc"@,
        "--lib"@,
        "-p"@,
        package,
        "--target-dir"@,
        target_dir,
        "--"@,
        "-Z"@,
        "unstable-options"@,
        "--output-format"@,
        "json"@,
        "--document-private-items"@,
    ]
}

/// Replaces every hyphen by an underscore.
fn underscore(text: &str) -> (result: String)
    ensures
        result@ == underscored(text@),
{
    let chars = chars_of(text);
    let mut result: String = "".to_owned();
    let mut i: usize = 0;
    proof {
        reveal_strlit("");
        reveal_strlit("_");
        assert("_"@ =~= seq!['_']);
        assert(result@ =~= underscored(text@.take(0)));
    }
    while i < chars.len()
        invariant
            i <= chars.len(),
            chars@ == text@,
            "_"@ == seq!['_'],
            result@ == underscored(text@.take(i as int)),
        decreases chars.len() - i,
    {
        if chars[i] == '-' {
            result.append("_");
        } else {
            result.append(text.substring_char(i, i + 1));
        }
        proof {
            assert(text@.subrange(i as int, i + 1) =~= seq![text@[i as int]]);
            assert(underscored(text@.take(i + 1)) =~= underscored(text@.take(i as int)).push(
                underscored(text@)[i as int],
            ));
        }
        i = i + 1;
    }
    proof {
        assert(text@.take(i as int) =~= text@);
    }
    result
}

/// The name of the library of a package: that of the package with underscores in place of hyphens,
/// unless the package sets another.
pub fn library_name(package: &str) -> (name: String)
    ensures
        name@ == library_of(package@),
{
    if same(package, "stackslib") {
        "blockstack_lib".to_owned()
    } else {
        underscore(package)
    }
}

/// The directory that rustdoc writes to.
pub fn rustdoc_target_dir(cargo_target_dir: Option<&str>) -> (dir: String)
    ensures
        dir@ == target_dir_of(
            match cargo_target_dir {
                Some(dir) => Some(dir@),
                None => None,
            },
        ),
{
    let mut dir: String = match cargo_target_dir {
        Some(dir) => dir.to_owned(),
        None => "target".to_owned(),
    };
    dir.append("/rustdoc-json");
    dir
}

/// The file that holds the JSON of a library.
pub fn json_file_path(target_dir: &str, library: &str) -> (path: String)
    ensures
        path@ == json_file_of(target_dir@, library@),
{
    let mut path: String = target_dir.to_owned();
    path.append("/doc/");
    path.append(library);
    path.append(".json");
    path
}

/// The arguments with which cargo writes the JSON of a package.
pub fn rustdoc_arguments(package: &str, target_dir: &str) -> (arguments: Vec<String>)
    ensures
        name_views(arguments@) == arguments_of(package@, target_dir@),
{
    let arguments: Vec<String> = vec![
        "+nightly".to_owned(),
        "rustdoc".to_owned(),
        "--lib".to_owned(),
        "-p".to_owned(),
        package.to_owned(),
        "--target-dir".to_owned(),
        target_dir.to_owned(),
        "--".to_owned(),
        "-Z".to_owned(),
        "unstable-options".to_owned(),
        "--output-format".to_owned(),
        "json".to_owned(),
        "--document-private-items".to_owned(),
    ];
    proof {
        assert(name_views(arguments@) =~= arguments_of(package@, target_dir@));
    }
    arguments
}

/// The packages besides the main one whose constants the documentation may refer to.
pub fn additional_packages() -> (packages: Vec<String>)
    ensures
        name_views(packages@) == seq!["stacks-common"@],
{
    let packages: Vec<String> = vec!["stacks-common".to_owned()];
    proof {
        assert(name_views(packages@) =~= seq!["stacks-common"@]);
    }
    packages
}

/// The files that hold the JSON of the additional packages. They are looked for in the default
/// target directory.
pub fn additional_json_files() -> (paths: Vec<String>)
    ensures
        name_views(paths@) == seq![json_file_of("target/rustdoc-json"@, "stacks_common"@)],
{
    let paths: Vec<String> = vec![json_file_path("target/rustdoc-json", "stacks_common")];
    proof {
        assert(name_views(paths@) =~= seq![
            json_file_of("target/rustdoc-json"@, "stacks_common"@),
        ]);
    }
    paths
}

/// What came of a run of rustdoc.
#[derive(Debug)]
pub struct Run {
    pub success: bool,
    pub stderr: String,
}

/// How many runs, from the first on, come before one that did not start.
pub open spec fn started(runs: Seq<(String, Result<Run, String>)>) -> nat
    decreases runs.len(),
{
    if runs.len() == 0 || runs[0].1 is Err {
        0
    } else {
        1 + started(runs.drop_first())
    }
}

/// Why the runs of rustdoc leave no JSON to read: the main one did not start or had no success, or
/// one on an additional package did not start. Whether an additional one had success does not
/// matter.
pub open spec fn is_failure(
    main: Result<Run, String>,
    additional: Seq<(String, Result<Run, String>)>,
    error: ExtractError,
) -> bool {
    match main {
        Err(cause) => error matches ExtractError::NotStarted(text) && text@ == cause@,
        Ok(run) => if !run.success {
            error matches ExtractError::RustdocFailed(text) && text@ == run.stderr@
        } else {
            let n = started(additional) as int;
            &&& n < additional.len()
            &&& error matches ExtractError::AdditionalNotStarted(package, cause) && package@
                == additional[n].0@ && cause@ == additional[n].1->Err_0@
        },
    }
}

/// Whether the runs of rustdoc leave JSON to read.
pub open spec fn runs_succeed(
    main: Result<Run, String>,
    additional: Seq<(String, Result<Run, String>)>,
) -> bool {
    &&& main matches Ok(run) && run.success
    &&& forall|i: int| 0 <= i < additional.len() ==> (#[trigger] additional[i]).1 is Ok
}

pub(crate) proof fn lemma_started_is(runs: Seq<(String, Result<Run, String>)>, n: int)
    requires
        0 <= n <= runs.len(),
        forall|i: int| 0 <= i < n ==> (#[trigger] runs[i]).1 is Ok,
        n < runs.len() ==> runs[n].1 is Err,
    ensures
        started(runs) == n,
    decreases runs.len(),
{
    if n > 0 {
        assert(runs[0].1 is Ok);
        let rest = runs.drop_first();
        assert forall|i: int| 0 <= i < n - 1 implies (#[trigger] rest[i]).1 is Ok by {
            assert(rest[i] == runs[i + 1]);
        }
        if n < runs.len() {
            assert(rest[n - 1] == runs[n]);
        }
        lemma_started_is(rest, n - 1);
    }
}

/// Tells what came of the runs of rustdoc so far.
pub fn runs_outcome(
    main: &Result<Run, String>,
    additional: &Vec<(String, Result<Run, String>)>,
) -> (result: Result<(), ExtractError>)
    ensures
        result is Ok <==> runs_succeed(*main, additional@),
        result matches Err(error) ==> is_failure(*main, additional@, error),
{
    match main {
        Ok(run) => if !run.success {
            return Err(ExtractError::RustdocFailed(run.stderr.clone()));
        },
        Err(cause) => {
            return Err(ExtractError::NotStarted(cause.clone()));
        },
    }
    let mut i: usize = 0;
    while i < additional.len()
        invariant
            i <= additional.len(),
            main matches Ok(run) && run.success,
            forall|j: int| 0 <= j < i ==> (#[trigger] additional@[j]).1 is Ok,
        decreases additional.len() - i,
    {
        if let Err(cause) = &additional[i].1 {
            proof {
                lemma_started_is(additional@, i as int);
            }
            return Err(
                ExtractError::AdditionalNotStarted(additional[i].0.clone(), cause.clone()),
            );
        }
        i = i + 1;
    }
    Ok(())
}

/// Tells what came of generating JSON: `text` is what was read from the file of the main package,
/// or why it could not be read.
pub fn generated_json(
    main: &Result<Run, String>,
    additional: &Vec<(String, Result<Run, String>)>,
    text: &Result<String, String>,
) -> (result: Result<Json, ExtractError>)
    ensures
        result is Ok <==> runs_succeed(*main, additional@) && (text matches Ok(text) && parsed(
            text@,
        ) is Ok),
        !runs_succeed(*main, additional@) ==> (result matches Err(error) && is_failure(
            *main,
            additional@,
            error,
        )),
        runs_succeed(*main, additional@) ==> match text {
            Ok(text) => match parsed(text@) {
                Ok(model) => result matches Ok(json) && json@ == model,
                Err(cause) => result matches Err(ExtractError::InvalidJson(reason)) && reason@
                    == cause,
            },
            Err(cause) => result matches Err(ExtractError::UnreadableJson(reason)) && reason@
                == cause@,
        },
{
    if let Err(error) = runs_outcome(main, additional) {
        return Err(error);
    }
    match text {
        Ok(text) => parse_json(text.as_str()),
        Err(cause) => Err(ExtractError::UnreadableJson(cause.clone())),
    }
}

/// What to warn of after rustdoc on an additional package: without success its constants stay
/// unknown.
pub fn additional_package_warning(package: &str, success: bool, stderr: &str) -> (warning: Option<
    String,
>)
    ensures
        match warning {
            Some(text) => !success && text@ == "Warning: Failed to generate rustdoc for "@
                + package@ + ": "@ + stderr@,
            None => success,
        },
{
    if success {
        return None;
    }
    let mut text: String = "Warning: Failed to generate rustdoc for ".to_owned();
    text.append(package);
    text.append(": ");
    text.append(stderr);
    Some(text)
}

/// The name of a library has no hyphen in it.
pub proof fn law_library_name_has_no_hyphen(package: Seq<char>)
    ensures
        !library_of(package).contains('-'),
{
    reveal_strlit("blockstack_lib");
}

} // verus!
