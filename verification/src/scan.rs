use vstd::prelude::*;

use crate::paths::{bin_home_of, extract_java_home_from_executable_path, opt_text};
use crate::text::{
    chars_of, contains_seq, find_in_range, find_seq, lemma_find_seq, line_bounds, lines_of,
    ranges_text, trim, trim_str,
};

verus! {

// ---------------------------------------------------------------------------
// Executables found on PATH
// ---------------------------------------------------------------------------

/// The installation roots named by the lines of a `which -a java` / `where java.exe`
/// listing: each line is trimmed, empty lines are skipped, and a line yields the root
/// of its executable when that executable sits in a `bin` directory.
pub open spec fn search_output_homes(lines: Seq<Seq<char>>) -> Seq<Seq<char>>
    decreases lines.len(),
{
    if lines.len() == 0 {
        seq![]
    } else {
        let t = trim(lines[0]);
        let here: Seq<Seq<char>> = if t.len() > 0 && bin_home_of(t) is Some {
            seq![bin_home_of(t)->0]
        } else {
            seq![]
        };
        here + search_output_homes(lines.drop_first())
    }
}

proof fn lemma_search_output_homes_split(lines: Seq<Seq<char>>, k: int)
    requires
        0 <= k <= lines.len(),
    ensures
        search_output_homes(lines) == search_output_homes(lines.take(k)) + search_output_homes(
            lines.skip(k),
        ),
    decreases k,
{
    if k == 0 {
        assert(lines.take(0) =~= Seq::<Seq<char>>::empty());
        assert(lines.skip(0) =~= lines);
        assert(search_output_homes(lines.take(0)) =~= Seq::<Seq<char>>::empty());
    } else {
        lemma_search_output_homes_split(lines.drop_first(), k - 1);
        assert(lines.drop_first().take(k - 1) =~= lines.take(k).drop_first());
        assert(lines.drop_first().skip(k - 1) =~= lines.skip(k));
        assert(lines.take(k)[0] == lines[0]);
    }
}

/// One listing line contributes exactly the root of its trimmed text when that text is
/// non-empty and has the `<root>/bin/<exe>` shape, whatever else it holds (spaces too),
/// and nothing otherwise.
pub proof fn lemma_search_line_contribution(line: Seq<char>)
    ensures
        trim(line).len() > 0 && bin_home_of(trim(line)) is Some ==> search_output_homes(
            seq![line],
        ) == seq![bin_home_of(trim(line))->0],
        !(trim(line).len() > 0 && bin_home_of(trim(line)) is Some) ==> search_output_homes(
            seq![line],
        ) == Seq::<Seq<char>>::empty(),
{
    assert(seq![line].drop_first() =~= Seq::<Seq<char>>::empty());
    assert(search_output_homes(Seq::<Seq<char>>::empty()) =~= Seq::<Seq<char>>::empty());
}

/// Every line of a listing whose trimmed text has the `<root>/bin/<exe>` shape has its
/// root among the roots found, and every root found is that of such a line.
pub proof fn lemma_search_output_homes_members(lines: Seq<Seq<char>>)
    ensures
        forall|i: int|
            0 <= i < lines.len() && trim(#[trigger] lines[i]).len() > 0 && bin_home_of(
                trim(lines[i]),
            ) is Some ==> search_output_homes(lines).contains(bin_home_of(trim(lines[i]))->0),
        forall|h: Seq<char>|
            #[trigger] search_output_homes(lines).contains(h) ==> exists|i: int|
                0 <= i < lines.len() && trim(#[trigger] lines[i]).len() > 0 && bin_home_of(
                    trim(lines[i]),
                ) == Some(h),
    decreases lines.len(),
{
    if lines.len() > 0 {
        let rest = lines.drop_first();
        lemma_search_output_homes_members(rest);
        let t = trim(lines[0]);
        let here: Seq<Seq<char>> = if t.len() > 0 && bin_home_of(t) is Some {
            seq![bin_home_of(t)->0]
        } else {
            seq![]
        };
        let all = search_output_homes(lines);
        assert(all == here + search_output_homes(rest));
        assert forall|i: int|
            0 <= i < lines.len() && trim(#[trigger] lines[i]).len() > 0 && bin_home_of(
                trim(lines[i]),
            ) is Some implies all.contains(bin_home_of(trim(lines[i]))->0) by {
            if i == 0 {
                assert(all[0] == bin_home_of(t)->0);
            } else {
                assert(rest[i - 1] == lines[i]);
                let h = bin_home_of(trim(lines[i]))->0;
                assert(search_output_homes(rest).contains(h));
                let j = choose|j: int|
                    0 <= j < search_output_homes(rest).len() && search_output_homes(rest)[j] == h;
                assert(all[here.len() + j] == h);
            }
        }
        assert forall|h: Seq<char>| #[trigger] all.contains(h) implies exists|i: int|
            0 <= i < lines.len() && trim(#[trigger] lines[i]).len() > 0 && bin_home_of(
                trim(lines[i]),
            ) == Some(h) by {
            let j = choose|j: int| 0 <= j < all.len() && all[j] == h;
            if j < here.len() {
                assert(trim(lines[0]).len() > 0 && bin_home_of(trim(lines[0])) == Some(h));
            } else {
                assert(search_output_homes(rest)[j - here.len()] == h);
                assert(search_output_homes(rest).contains(h));
                let i = choose|i: int|
                    0 <= i < rest.len() && trim(#[trigger] rest[i]).len() > 0 && bin_home_of(
                        trim(rest[i]),
                    ) == Some(h);
                assert(lines[i + 1] == rest[i]);
            }
        }
    }
}

/// The installation roots named by a listing of Java executables, in listing order.
pub fn java_homes_from_search_output(output: &str) -> (r: Vec<String>)
    ensures
        r@.len() == search_output_homes(lines_of(output@)).len(),
        forall|i: int|
            0 <= i < r@.len() ==> #[trigger] r@[i]@ == search_output_homes(lines_of(output@))[i],
{
    let cs = chars_of(output);
    let bounds = line_bounds(&cs);
    let ghost ls = lines_of(output@);
    let mut r: Vec<String> = Vec::new();
    let mut k: usize = 0;
    assert(ls.take(0) =~= Seq::<Seq<char>>::empty());
    while k < bounds.len()
        invariant
            cs@ == output@,
            ls == lines_of(output@),
            ranges_text(cs@, bounds@) == ls,
            forall|i: int| 0 <= i < bounds@.len() ==> (#[trigger] bounds@[i]).0 <= bounds@[i].1
                <= cs@.len(),
            k <= bounds@.len(),
            r@.len() == search_output_homes(ls.take(k as int)).len(),
            forall|i: int|
                0 <= i < r@.len() ==> #[trigger] r@[i]@ == search_output_homes(ls.take(k as int))[i],
        decreases bounds@.len() - k,
    {
        let (a, b) = bounds[k];
        let line = output.substring_char(a, b);
        assert(line@ == ls[k as int]);
        let t = trim_str(line);
        let ghost before = search_output_homes(ls.take(k as int));
        let ghost old_r = r@;
        proof {
            let next = ls.take(k + 1);
            lemma_search_output_homes_split(next, k as int);
            assert(next.take(k as int) =~= ls.take(k as int));
            assert(next.skip(k as int) =~= seq![ls[k as int]]);
            assert(seq![ls[k as int]].drop_first() =~= Seq::<Seq<char>>::empty());
            assert(seq![ls[k as int]][0] == ls[k as int]);
            assert(search_output_homes(Seq::<Seq<char>>::empty()) =~= Seq::<Seq<char>>::empty());
        }
        let ghost here: Seq<Seq<char>> = if t@.len() > 0 && bin_home_of(t@) is Some {
            seq![bin_home_of(t@)->0]
        } else {
            seq![]
        };
        assert(search_output_homes(seq![ls[k as int]]) =~= here);
        assert(search_output_homes(ls.take(k + 1)) =~= before + here);
        if t.as_str().unicode_len() > 0 {
            match extract_java_home_from_executable_path(t.as_str()) {
                Some(h) => {
                    r.push(h);
                },
                None => {},
            }
        }
        assert(r@.len() == search_output_homes(ls.take(k + 1)).len());
        assert forall|i: int| 0 <= i < r@.len() implies #[trigger] r@[i]@ == search_output_homes(
            ls.take(k + 1),
        )[i] by {
            if i < old_r.len() {
                assert(r@[i] == old_r[i]);
            }
        }
        k = k + 1;
    }
    assert(ls.take(k as int) =~= ls);
    r
}

// ---------------------------------------------------------------------------
// The macOS `java_home -V` listing
// ---------------------------------------------------------------------------

/// The installation root that one line of a `java_home -V` listing names: for a line that
/// mentions `/Library/Java/JavaVirtualMachines`, the text from the first `/Library` up to
/// the next space.
pub open spec fn listing_line_home(line: Seq<char>) -> Option<Seq<char>> {
    if contains_seq(line, "/Library/Java/JavaVirtualMachines"@) {
        match find_seq(line, "/Library"@) {
            Some(st) => match find_seq(line.skip(st as int), seq![' ']) {
                Some(e) => Some(line.subrange(st as int, st as int + e as int)),
                None => None,
            },
            None => None,
        }
    } else {
        None
    }
}

/// The installation roots that a `java_home -V` listing names, in listing order.
pub open spec fn listing_homes(lines: Seq<Seq<char>>) -> Seq<Seq<char>>
    decreases lines.len(),
{
    if lines.len() == 0 {
        seq![]
    } else {
        let here: Seq<Seq<char>> = match listing_line_home(lines[0]) {
            Some(h) => seq![h],
            None => seq![],
        };
        here + listing_homes(lines.drop_first())
    }
}

proof fn lemma_listing_homes_split(lines: Seq<Seq<char>>, k: int)
    requires
        0 <= k <= lines.len(),
    ensures
        listing_homes(lines) == listing_homes(lines.take(k)) + listing_homes(lines.skip(k)),
    decreases k,
{
    if k == 0 {
        assert(lines.take(0) =~= Seq::<Seq<char>>::empty());
        assert(lines.skip(0) =~= lines);
        assert(listing_homes(lines.take(0)) =~= Seq::<Seq<char>>::empty());
    } else {
        lemma_listing_homes_split(lines.drop_first(), k - 1);
        assert(lines.drop_first().take(k - 1) =~= lines.take(k).drop_first());
        assert(lines.drop_first().skip(k - 1) =~= lines.skip(k));
        assert(lines.take(k)[0] == lines[0]);
    }
}

/// The installation root named by the characters `cs[a..b]` of a listing line.
fn listing_home_in_range(output: &str, cs: &Vec<char>, a: usize, b: usize) -> (r: Option<String>)
    requires
        cs@ == output@,
        a <= b <= cs@.len(),
    ensures
        opt_text(r) == listing_line_home(cs@.subrange(a as int, b as int)),
{
    let ghost line = cs@.subrange(a as int, b as int);
    let jvms = chars_of("/Library/Java/JavaVirtualMachines");
    let library = chars_of("/Library");
    let mut space: Vec<char> = Vec::new();
    space.push(' ');
    assert(space@ =~= seq![' ']);
    if find_in_range(cs, a, b, &jvms).is_none() {
        return None;
    }
    match find_in_range(cs, a, b, &library) {
        Some(st) => {
            proof {
                lemma_find_seq(line, "/Library"@);
            }
            assert(line.skip(st - a) =~= cs@.subrange(st as int, b as int));
            match find_in_range(cs, st, b, &space) {
                Some(e) => {
                    assert(line.subrange(st - a, (st - a) + (e - st)) =~= cs@.subrange(
                        st as int,
                        e as int,
                    ));
                    Some(String::from_str(output.substring_char(st, e)))
                },
                None => None,
            }
        },
        None => None,
    }
}

/// The installation root that one line of a `java_home -V` listing names.
pub fn java_home_from_listing_line(line: &str) -> (r: Option<String>)
    ensures
        opt_text(r) == listing_line_home(line@),
{
    let cs = chars_of(line);
    assert(cs@.subrange(0, cs@.len() as int) =~= cs@);
    listing_home_in_range(line, &cs, 0, cs.len())
}

/// The installation roots that a `java_home -V` listing names, in listing order.
pub fn java_homes_from_listing(output: &str) -> (r: Vec<String>)
    ensures
        r@.len() == listing_homes(lines_of(output@)).len(),
        forall|i: int|
            0 <= i < r@.len() ==> #[trigger] r@[i]@ == listing_homes(lines_of(output@))[i],
{
    let cs = chars_of(output);
    let bounds = line_bounds(&cs);
    let ghost ls = lines_of(output@);
    let mut r: Vec<String> = Vec::new();
    let mut k: usize = 0;
    assert(ls.take(0) =~= Seq::<Seq<char>>::empty());
    while k < bounds.len()
        invariant
            cs@ == output@,
            ls == lines_of(output@),
            ranges_text(cs@, bounds@) == ls,
            forall|i: int| 0 <= i < bounds@.len() ==> (#[trigger] bounds@[i]).0 <= bounds@[i].1
                <= cs@.len(),
            k <= bounds@.len(),
            r@.len() == listing_homes(ls.take(k as int)).len(),
            forall|i: int|
                0 <= i < r@.len() ==> #[trigger] r@[i]@ == listing_homes(ls.take(k as int))[i],
        decreases bounds@.len() - k,
    {
        let (a, b) = bounds[k];
        assert(cs@.subrange(a as int, b as int) == ls[k as int]);
        let ghost old_r = r@;
        proof {
            let next = ls.take(k + 1);
            lemma_listing_homes_split(next, k as int);
            assert(next.take(k as int) =~= ls.take(k as int));
            assert(next.skip(k as int) =~= seq![ls[k as int]]);
            assert(seq![ls[k as int]].drop_first() =~= Seq::<Seq<char>>::empty());
            assert(seq![ls[k as int]][0] == ls[k as int]);
            assert(listing_homes(Seq::<Seq<char>>::empty()) =~= Seq::<Seq<char>>::empty());
        }
        let ghost before = listing_homes(ls.take(k as int));
        let ghost here: Seq<Seq<char>> = match listing_line_home(ls[k as int]) {
            Some(h) => seq![h],
            None => seq![],
        };
        assert(listing_homes(seq![ls[k as int]]) =~= here);
        assert(listing_homes(ls.take(k + 1)) =~= before + here);
        match listing_home_in_range(output, &cs, a, b) {
            Some(h) => {
                r.push(h);
            },
            None => {},
        }
        assert(r@.len() == listing_homes(ls.take(k + 1)).len());
        assert forall|i: int| 0 <= i < r@.len() implies #[trigger] r@[i]@ == listing_homes(
            ls.take(k + 1),
        )[i] by {
            if i < old_r.len() {
                assert(r@[i] == old_r[i]);
            }
        }
        k = k + 1;
    }
    assert(ls.take(k as int) =~= ls);
    r
}

// ---------------------------------------------------------------------------
// Windows registry
// ---------------------------------------------------------------------------

/// A registry hive that Java installers write to.
#[derive(Debug, Clone, Copy, PartialEq, Eq, Structural)]
pub enum RegistryHive {
    LocalMachine,
    CurrentUser,
}

/// The registry keys below which Java installers record their versions, in the order
/// in which they are read.
pub open spec fn registry_locations_spec() -> Seq<(RegistryHive, Seq<char>)> {
    seq![
        (RegistryHive::LocalMachine, "SOFTWARE\\JavaSoft\\Java Runtime Environment"@),
        (RegistryHive::LocalMachine, "SOFTWARE\\JavaSoft\\Java Development Kit"@),
        (RegistryHive::LocalMachine, "SOFTWARE\\Wow6432Node\\JavaSoft\\Java Runtime Environment"@),
        (RegistryHive::LocalMachine, "SOFTWARE\\Wow6432Node\\JavaSoft\\Java Development Kit"@),
        (RegistryHive::CurrentUser, "SOFTWARE\\JavaSoft\\Java Runtime Environment"@),
        (RegistryHive::CurrentUser, "SOFTWARE\\JavaSoft\\Java Development Kit"@),
    ]
}

/// The registry is read under the Java Runtime Environment and Java Development Kit keys
/// of `SOFTWARE\JavaSoft` and of its 32-bit view `SOFTWARE\Wow6432Node\JavaSoft` in the
/// machine hive, then under the two `SOFTWARE\JavaSoft` keys in the user hive.
pub proof fn lemma_registry_locations()
    ensures
        registry_locations_spec().len() == 6,
        registry_locations_spec()[0] == (RegistryHive::LocalMachine, "SOFTWARE\\JavaSoft\\Java Runtime Environment"@),
        registry_locations_spec()[1] == (RegistryHive::LocalMachine, "SOFTWARE\\JavaSoft\\Java Development Kit"@),
        registry_locations_spec()[2] == (RegistryHive::LocalMachine, "SOFTWARE\\Wow6432Node\\JavaSoft\\Java Runtime Environment"@),
        registry_locations_spec()[3] == (RegistryHive::LocalMachine, "SOFTWARE\\Wow6432Node\\JavaSoft\\Java Development Kit"@),
        registry_locations_spec()[4] == (RegistryHive::CurrentUser, "SOFTWARE\\JavaSoft\\Java Runtime Environment"@),
        registry_locations_spec()[5] == (RegistryHive::CurrentUser, "SOFTWARE\\JavaSoft\\Java Development Kit"@),
{
}

/// The registry keys below which Java installers record their versions.
pub fn registry_java_locations() -> (r: Vec<(RegistryHive, &'static str)>)
    ensures
        r@.len() == registry_locations_spec().len(),
        forall|i: int|
            0 <= i < r@.len() ==> (#[trigger] r@[i]).0 == registry_locations_spec()[i].0 && r@[i].1@
                == registry_locations_spec()[i].1,
{
    let mut r: Vec<(RegistryHive, &'static str)> = Vec::new();
    r.push((RegistryHive::LocalMachine, "SOFTWARE\\JavaSoft\\Java Runtime Environment"));
    r.push((RegistryHive::LocalMachine, "SOFTWARE\\JavaSoft\\Java Development Kit"));
    r.push((RegistryHive::LocalMachine, "SOFTWARE\\Wow6432Node\\JavaSoft\\Java Runtime Environment"));
    r.push((RegistryHive::LocalMachine, "SOFTWARE\\Wow6432Node\\JavaSoft\\Java Development Kit"));
    r.push((RegistryHive::CurrentUser, "SOFTWARE\\JavaSoft\\Java Runtime Environment"));
    r.push((RegistryHive::CurrentUser, "SOFTWARE\\JavaSoft\\Java Development Kit"));
    r
}

} // verus!
