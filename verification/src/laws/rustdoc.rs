//! Laws on generating rustdoc JSON.

use vstd::prelude::*;

use crate::error::ExtractError;
use crate::rustdoc::{
    arguments_of, is_failure, json_file_of, lemma_started_is, library_of, runs_succeed,
    target_dir_of, Run,
};

verus! {

/// The name of a library is that of its package, character by character, with underscores for
/// hyphens. One package sets another name.
pub proof fn law_library_is_named_after_package(package: Seq<char>, i: int)
    requires
        package != "stackslib"@,
        0 <= i < package.len(),
    ensures
        library_of(package).len() == package.len(),
        package[i] == '-' ==> library_of(package)[i] == '_',
        package[i] != '-' ==> library_of(package)[i] == package[i],
        library_of("stackslib"@) == "blockstack_lib"@,
{
}

/// The target directory lies below that of cargo, which is `target` where none is set. The file of
/// a library lies in its documentation.
pub proof fn law_paths_of_json(dir: Seq<char>, library: Seq<char>)
    ensures
        target_dir_of(Some(dir)) == dir + "/rustdoc-json"@,
        target_dir_of(None) == target_dir_of(Some("target"@)),
        json_file_of(dir, library) == dir + "/doc/"@ + library + ".json"@,
{
}

/// The arguments of cargo differ from package to package, and from directory to directory, only
/// where they name them.
pub proof fn law_arguments_name_package_and_directory(
    package: Seq<char>,
    target_dir: Seq<char>,
    other_package: Seq<char>,
    other_target_dir: Seq<char>,
)
    ensures
        arguments_of(package, target_dir).len() == 13,
        arguments_of(package, target_dir)[3] == "-p"@,
        arguments_of(package, target_dir)[4] == package,
        arguments_of(package, target_dir)[5] == "--target-dir"@,
        arguments_of(package, target_dir)[6] == target_dir,
        arguments_of(package, target_dir) == arguments_of(other_package, other_target_dir).update(
            4,
            package,
        ).update(6, target_dir),
{
    assert(arguments_of(package, target_dir) =~= arguments_of(
        other_package,
        other_target_dir,
    ).update(4, package).update(6, target_dir));
}

/// There is JSON to read if and only if the main run had success and every additional one started.
pub proof fn law_runs_succeed(main: Run, additional: Seq<(String, Result<Run, String>)>)
    ensures
        !runs_succeed(Err(main.stderr), additional),
        runs_succeed(Ok(main), additional) <==> main.success && forall|i: int|
            0 <= i < additional.len() ==> (#[trigger] additional[i]).1 is Ok,
{
}

/// Where there is none, the main run tells why: it did not start, or had no success. Otherwise the
/// first additional run that did not start tells.
pub proof fn law_first_failure_is_told(
    main: Result<Run, String>,
    additional: Seq<(String, Result<Run, String>)>,
    error: ExtractError,
    i: int,
)
    requires
        is_failure(main, additional, error),
    ensures
        main is Err ==> (error matches ExtractError::NotStarted(text) && text@
            == main->Err_0@),
        main is Ok && !main->Ok_0.success ==> (error matches ExtractError::RustdocFailed(text)
            && text@ == main->Ok_0.stderr@),
        main is Ok && main->Ok_0.success && 0 <= i < additional.len() && additional[i].1 is Err && (
        forall|j: int| 0 <= j < i ==> (#[trigger] additional[j]).1 is Ok) ==> (
        error matches ExtractError::AdditionalNotStarted(package, cause) && package@
            == additional[i].0@ && cause@ == additional[i].1->Err_0@),
        !runs_succeed(main, additional),
{
    if 0 <= i < additional.len() && additional[i].1 is Err && (forall|j: int|
        0 <= j < i ==> (#[trigger] additional[j]).1 is Ok) {
        lemma_started_is(additional, i);
    }
    if runs_succeed(main, additional) {
        assert forall|j: int| 0 <= j < additional.len() implies (#[trigger] additional[j]).1 is Ok by {
        }
        lemma_started_is(additional, additional.len() as int);
    }
}

} // verus!
