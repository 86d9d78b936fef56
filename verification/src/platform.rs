use vstd::prelude::*;

use crate::paths::{opt_text, path_join, path_join_of};

verus! {

/// The operating-system family whose conventions the detector follows.
#[derive(Debug, Clone, Copy, PartialEq, Eq, Structural)]
pub enum Platform {
    Windows,
    MacOs,
    Other,
}

/// The command that lists the `java` executables found on `PATH`.
pub fn get_java_search_command(platform: Platform) -> (r: (&'static str, Vec<&'static str>))
    ensures
        platform == Platform::Windows ==> r.0@ == "where"@ && r.1@.len() == 1 && r.1@[0]@
            == "java.exe"@,
        platform != Platform::Windows ==> r.0@ == "which"@ && r.1@.len() == 2 && r.1@[0]@
            == "-a"@ && r.1@[1]@ == "java"@,
{
    if platform == Platform::Windows {
        let mut args: Vec<&'static str> = Vec::new();
        args.push("java.exe");
        ("where", args)
    } else {
        let mut args: Vec<&'static str> = Vec::new();
        args.push("-a");
        args.push("java");
        ("which", args)
    }
}

/// The directories in which Java installations are commonly placed: the program
/// directories on Windows (and `Java` below `ProgramData` when that is set), the
/// virtual-machine directories on macOS (and the one below the home directory when
/// that is set), and none elsewhere.
pub open spec fn common_java_dirs_of(
    platform: Platform,
    program_data: Option<Seq<char>>,
    home: Option<Seq<char>>,
) -> Seq<Seq<char>> {
    if platform == Platform::Windows {
        seq!["C:\\Program Files\\Java"@, "C:\\Program Files (x86)\\Java"@] + match program_data {
            Some(p) => seq![path_join_of(p, "Java"@)],
            None => seq![],
        }
    } else if platform == Platform::MacOs {
        seq!["/Library/Java/JavaVirtualMachines"@, "/System/Library/Java/JavaVirtualMachines"@]
            + match home {
            Some(h) => seq![path_join_of(h, "Library/Java/JavaVirtualMachines"@)],
            None => seq![],
        }
    } else {
        seq![]
    }
}

/// Windows looks in both program directories and, when `ProgramData` is set, in `Java`
/// below it; macOS looks in the system and library virtual-machine directories and, when
/// `HOME` is set, in the one below it; other platforms look nowhere.
pub proof fn lemma_common_java_dirs(program_data: Option<Seq<char>>, home: Option<Seq<char>>)
    ensures
        common_java_dirs_of(Platform::Windows, program_data, home).take(2) == seq![
            "C:\\Program Files\\Java"@,
            "C:\\Program Files (x86)\\Java"@,
        ],
        common_java_dirs_of(Platform::Windows, program_data, home).len() == (if program_data is Some {
            3int
        } else {
            2int
        }),
        program_data matches Some(p) ==> common_java_dirs_of(Platform::Windows, program_data, home)[2]
            == path_join_of(p, "Java"@),
        common_java_dirs_of(Platform::MacOs, program_data, home).take(2) == seq![
            "/Library/Java/JavaVirtualMachines"@,
            "/System/Library/Java/JavaVirtualMachines"@,
        ],
        common_java_dirs_of(Platform::MacOs, program_data, home).len() == (if home is Some {
            3int
        } else {
            2int
        }),
        home matches Some(h) ==> common_java_dirs_of(Platform::MacOs, program_data, home)[2]
            == path_join_of(h, "Library/Java/JavaVirtualMachines"@),
        common_java_dirs_of(Platform::Other, program_data, home).len() == 0,
{
    assert(common_java_dirs_of(Platform::Windows, program_data, home).take(2) =~= seq![
        "C:\\Program Files\\Java"@,
        "C:\\Program Files (x86)\\Java"@,
    ]);
    assert(common_java_dirs_of(Platform::MacOs, program_data, home).take(2) =~= seq![
        "/Library/Java/JavaVirtualMachines"@,
        "/System/Library/Java/JavaVirtualMachines"@,
    ]);
}

/// The directories in which Java installations are commonly placed, given the values of
/// the `ProgramData` and `HOME` environment variables.
pub fn get_common_java_dirs(platform: Platform, program_data: Option<String>, home: Option<String>) -> (r:
    Vec<String>)
    ensures
        r@.len() == common_java_dirs_of(platform, opt_text(program_data), opt_text(home)).len(),
        forall|i: int|
            0 <= i < r@.len() ==> #[trigger] r@[i]@ == common_java_dirs_of(
                platform,
                opt_text(program_data),
                opt_text(home),
            )[i],
{
    let mut dirs: Vec<String> = Vec::new();
    let ghost spec_dirs = common_java_dirs_of(platform, opt_text(program_data), opt_text(home));
    if platform == Platform::Windows {
        dirs.push(String::from_str("C:\\Program Files\\Java"));
        dirs.push(String::from_str("C:\\Program Files (x86)\\Java"));
        match program_data {
            Some(p) => {
                dirs.push(path_join(p.as_str(), "Java"));
            },
            None => {},
        }
    } else if platform == Platform::MacOs {
        dirs.push(String::from_str("/Library/Java/JavaVirtualMachines"));
        dirs.push(String::from_str("/System/Library/Java/JavaVirtualMachines"));
        match home {
            Some(h) => {
                dirs.push(path_join(h.as_str(), "Library/Java/JavaVirtualMachines"));
            },
            None => {},
        }
    }
    assert(dirs@.len() == spec_dirs.len());
    dirs
}

} // verus!
