use vstd::prelude::*;

use crate::model::{Bitness, JavaError, JavaInfo};
use crate::paths::{determine_java_home, is_java_executable, is_java_executable_path, java_home_of};
use crate::platform::Platform;
use crate::text::{str_equal, trim, trim_str};
use crate::version::{parse_java_version_output, version_report};

verus! {

/// The path to validate, with surrounding white space removed; an empty path is refused.
pub fn clean_java_path(path: &str) -> (r: Result<String, JavaError>)
    ensures
        trim(path@).len() == 0 ==> r == Err::<String, JavaError>(JavaError::EmptyPath),
        trim(path@).len() > 0 ==> (r matches Ok(p) && p@ == trim(path@)),
{
    let t = trim_str(path);
    if t.as_str().unicode_len() == 0 {
        Err(JavaError::EmptyPath)
    } else {
        Ok(t)
    }
}

/// A path and its trimmed form are cleaned to the same result: both are refused as
/// empty, or both give the same trimmed path.
pub proof fn lemma_clean_path_of_trimmed(path: Seq<char>)
    ensures
        trim(trim(path)) == trim(path),
        trim(trim(path)).len() == 0 <==> trim(path).len() == 0,
{
    crate::text::lemma_trim_idempotent(path);
}

/// The command is `...java -version`, whose report goes to standard error.
pub open spec fn is_version_query(platform: Platform, cmd: Seq<char>, args: Seq<&str>) -> bool {
    &&& is_java_executable_path(platform, cmd)
    &&& args.len() == 1
    &&& args[0]@ == "-version"@
}

/// The text that a finished command hands back: for a `-version` query of a Java
/// executable its standard error, where the version report goes, whatever the exit
/// status; for any other command its standard output when it succeeded, and otherwise a
/// failure that carries its standard error.
pub fn command_output_text(
    platform: Platform,
    cmd: &str,
    args: &[&str],
    success: bool,
    stdout: String,
    stderr: String,
) -> (r: Result<String, JavaError>)
    ensures
        is_version_query(platform, cmd@, args@) ==> r == Ok::<String, JavaError>(stderr),
        !is_version_query(platform, cmd@, args@) && success ==> r == Ok::<String, JavaError>(
            stdout,
        ),
        !is_version_query(platform, cmd@, args@) && !success ==> r == Err::<String, JavaError>(
            JavaError::CommandFailed(stderr),
        ),
{
    let query = args.len() == 1 && str_equal(args[0], "-version") && is_java_executable(
        platform,
        cmd,
    );
    if query {
        Ok(stderr)
    } else if success {
        Ok(stdout)
    } else {
        Err(JavaError::CommandFailed(stderr))
    }
}

/// The description of the installation whose executable `exe` printed `output` for
/// `java -version`; refused when no major version can be read.
pub fn java_info_from_version_output(exe: &str, output: &str) -> (r: Result<JavaInfo, JavaError>)
    ensures
        version_report(output@).0 == 0 ==> r == Err::<JavaInfo, JavaError>(
            JavaError::VersionUnreadable,
        ),
        version_report(output@).0 != 0 ==> (r matches Ok(info) && {
            &&& info.home_path@ == java_home_of(exe@)
            &&& info.major_version == version_report(output@).0
            &&& info.bitness == version_report(output@).1
            &&& info.full_version@ == version_report(output@).2
            &&& info.is_64bit == (info.bitness == Bitness::Bit64)
        }),
        r matches Ok(info) ==> info.is_consistent(),
{
    let (major_version, bitness, full_version) = parse_java_version_output(output);
    if major_version == 0 {
        return Err(JavaError::VersionUnreadable);
    }
    let home_path = determine_java_home(exe);
    Ok(
        JavaInfo {
            home_path,
            major_version,
            is_64bit: bitness == Bitness::Bit64,
            bitness,
            full_version,
        },
    )
}

/// `info` describes the installation whose executable `exe` reported `output`.
pub open spec fn describes(info: JavaInfo, exe: Seq<char>, output: Seq<char>) -> bool {
    &&& info.home_path@ == java_home_of(exe)
    &&& info.major_version == version_report(output).0
    &&& info.bitness == version_report(output).1
    &&& info.full_version@ == version_report(output).2
    &&& info.is_64bit == (info.bitness == Bitness::Bit64)
}

/// The description of the installation whose executable `exe` was run with `-version`,
/// from the outcome of that run: the report is read from standard error, and refused
/// when no major version can be read from it.
pub fn java_info_from_version_run(
    platform: Platform,
    exe: &str,
    success: bool,
    stdout: String,
    stderr: String,
) -> (r: Result<JavaInfo, JavaError>)
    ensures
        is_java_executable_path(platform, exe@) ==> {
            &&& version_report(stderr@).0 == 0 ==> r == Err::<JavaInfo, JavaError>(
                JavaError::VersionUnreadable,
            )
            &&& version_report(stderr@).0 != 0 ==> (r matches Ok(info) && describes(
                info,
                exe@,
                stderr@,
            ))
        },
        !is_java_executable_path(platform, exe@) && success ==> {
            &&& version_report(stdout@).0 == 0 ==> r == Err::<JavaInfo, JavaError>(
                JavaError::VersionUnreadable,
            )
            &&& version_report(stdout@).0 != 0 ==> (r matches Ok(info) && describes(
                info,
                exe@,
                stdout@,
            ))
        },
        !is_java_executable_path(platform, exe@) && !success ==> r == Err::<JavaInfo, JavaError>(
            JavaError::CommandFailed(stderr),
        ),
        r matches Ok(info) ==> info.is_consistent(),
{
    let mut args: Vec<&str> = Vec::new();
    args.push("-version");
    assert(args@[0]@ == "-version"@);
    match command_output_text(platform, exe, args.as_slice(), success, stdout, stderr) {
        Ok(text) => java_info_from_version_output(exe, text.as_str()),
        Err(e) => Err(e),
    }
}

} // verus!
