use vstd::prelude::*;

use crate::model::Bitness;
use crate::text::{
    all_ascii_digits, digits_value, is_ascii_digit, lemma_find_seq_is, lemma_find_seq_none, matches_at,
    chars_of, contains_ignoring_case, contains_ignoring_case_in_range, find_in_range, find_seq,
    lemma_find_seq, line_bounds, lines_of, parse_u16, parse_u16_in_range, ranges_text, starts_with,
    str_equal,
};

verus! {

// ---------------------------------------------------------------------------
// `java -version` output
// ---------------------------------------------------------------------------

/// The text between the first and the second double quote of `line`; up to the end
/// of the line when there is only one quote, and empty when there is none.
pub open spec fn quoted_version(line: Seq<char>) -> Seq<char> {
    match find_seq(line, seq!['"']) {
        Some(i) => {
            let rest = line.skip(i as int + 1);
            match find_seq(rest, seq!['"']) {
                Some(j) => rest.take(j as int),
                None => rest,
            }
        },
        None => seq![],
    }
}

/// The version text of a line is what stands between its first two double quotes, or
/// after its only one; a line without a double quote has none.
pub proof fn lemma_quoted_version(before: Seq<char>, v: Seq<char>, after: Seq<char>)
    requires
        !before.contains('"'),
        !v.contains('"'),
    ensures
        quoted_version(before + seq!['"'] + v + seq!['"'] + after) == v,
        quoted_version(before + seq!['"'] + v) == v,
        quoted_version(before) == Seq::<char>::empty(),
{
    let q = seq!['"'];
    let l1 = before + q + v + q + after;
    let l2 = before + q + v;
    let b = before.len() as int;
    assert forall|j: int| 0 <= j < b implies !#[trigger] matches_at(l1, q, j) by {
        assert(l1.subrange(j, j + 1)[0] == before[j]);
    }
    assert forall|j: int| 0 <= j < b implies !#[trigger] matches_at(l2, q, j) by {
        assert(l2.subrange(j, j + 1)[0] == before[j]);
    }
    assert(matches_at(l1, q, b)) by {
        assert(l1.subrange(b, b + 1) =~= q);
    }
    assert(matches_at(l2, q, b)) by {
        assert(l2.subrange(b, b + 1) =~= q);
    }
    lemma_find_seq_is(l1, q, b);
    lemma_find_seq_is(l2, q, b);
    assert forall|j: int| !#[trigger] matches_at(before, q, j) by {
        if 0 <= j < b {
            assert(before.subrange(j, j + 1)[0] == before[j]);
        }
    }
    lemma_find_seq_none(before, q);
    let r1 = l1.skip(b + 1);
    let r2 = l2.skip(b + 1);
    assert(r1 =~= v + q + after);
    assert(r2 =~= v);
    let n = v.len() as int;
    assert forall|j: int| 0 <= j < n implies !#[trigger] matches_at(r1, q, j) by {
        assert(r1.subrange(j, j + 1)[0] == v[j]);
    }
    assert(matches_at(r1, q, n)) by {
        assert(r1.subrange(n, n + 1) =~= q);
    }
    lemma_find_seq_is(r1, q, n);
    assert(r1.take(n) =~= v);
    assert forall|j: int| !#[trigger] matches_at(r2, q, j) by {
        if 0 <= j < n {
            assert(r2.subrange(j, j + 1)[0] == v[j]);
        }
    }
    lemma_find_seq_none(r2, q);
}

/// A `u16` read from `t`, or 0 when `t` is not one.
pub open spec fn u16_or_zero(t: Seq<char>) -> u16 {
    match parse_u16(t) {
        Some(v) => v,
        None => 0,
    }
}

/// The number at the front of `t`: the text before its first dot, or all of `t` when
/// it has no dot; 0 when that text is not a `u16`.
pub open spec fn leading_number(t: Seq<char>) -> u16 {
    match find_seq(t, seq!['.']) {
        Some(j) => u16_or_zero(t.take(j as int)),
        None => u16_or_zero(t),
    }
}

/// The major version that a version text names: the leading number after `1.` for the
/// old `1.x.y` scheme, otherwise the leading number (`17.0.9` gives 17, `21` gives 21).
pub open spec fn major_from_version(v: Seq<char>) -> u16 {
    if starts_with(v, seq!['1', '.']) {
        leading_number(v.skip(2))
    } else {
        leading_number(v)
    }
}

/// The bitness that the first line naming one gives; `64-bit` wins within a line.
pub open spec fn bitness_of_lines(ls: Seq<Seq<char>>) -> Bitness
    decreases ls.len(),
{
    if ls.len() == 0 {
        Bitness::Unknown
    } else if contains_ignoring_case(ls[0], "64-bit"@) {
        Bitness::Bit64
    } else if contains_ignoring_case(ls[0], "32-bit"@) {
        Bitness::Bit32
    } else {
        bitness_of_lines(ls.drop_first())
    }
}

/// The bitness is decided by the first line that names one: `64-bit` (ignoring ASCII
/// case) gives 64-bit even when the line also names `32-bit`, `32-bit` alone gives
/// 32-bit, and output in which no line names one has an unknown bitness.
pub proof fn lemma_bitness_first_naming_line(ls: Seq<Seq<char>>, k: int)
    requires
        0 <= k <= ls.len(),
        forall|j: int|
            0 <= j < k ==> !contains_ignoring_case(#[trigger] ls[j], "64-bit"@)
                && !contains_ignoring_case(ls[j], "32-bit"@),
    ensures
        k < ls.len() && contains_ignoring_case(ls[k], "64-bit"@) ==> bitness_of_lines(ls)
            == Bitness::Bit64,
        k < ls.len() && !contains_ignoring_case(ls[k], "64-bit"@) && contains_ignoring_case(
            ls[k],
            "32-bit"@,
        ) ==> bitness_of_lines(ls) == Bitness::Bit32,
        k == ls.len() ==> bitness_of_lines(ls) == Bitness::Unknown,
    decreases k,
{
    if k == 0 {
        assert(ls.skip(0) =~= ls);
        if ls.len() == 0 {
        }
    } else {
        assert forall|j: int| 0 <= j < k - 1 implies !contains_ignoring_case(
            #[trigger] ls.drop_first()[j],
            "64-bit"@,
        ) && !contains_ignoring_case(ls.drop_first()[j], "32-bit"@) by {
            assert(ls.drop_first()[j] == ls[j + 1]);
        }
        lemma_bitness_first_naming_line(ls.drop_first(), k - 1);
        assert(!contains_ignoring_case(ls[0], "64-bit"@) && !contains_ignoring_case(
            ls[0],
            "32-bit"@,
        ));
        if k < ls.len() {
            assert(ls.drop_first()[k - 1] == ls[k]);
        }
    }
}

/// Major version, bitness and full version text that `java -version` output reports.
pub open spec fn version_report(output: Seq<char>) -> (u16, Bitness, Seq<char>) {
    let ls = lines_of(output);
    if ls.len() == 0 {
        (0, Bitness::Unknown, seq![])
    } else {
        let v = quoted_version(ls[0]);
        (major_from_version(v), bitness_of_lines(ls), v)
    }
}

proof fn lemma_bitness_step(ls: Seq<Seq<char>>, k: int)
    requires
        0 <= k < ls.len(),
        !contains_ignoring_case(ls[k], "64-bit"@),
        !contains_ignoring_case(ls[k], "32-bit"@),
    ensures
        bitness_of_lines(ls.skip(k)) == bitness_of_lines(ls.skip(k + 1)),
{
    assert(ls.skip(k).drop_first() =~= ls.skip(k + 1));
    assert(ls.skip(k)[0] == ls[k]);
}

/// The leading number of `cs[from..to]`.
fn leading_number_in_range(cs: &Vec<char>, from: usize, to: usize) -> (r: u16)
    requires
        from <= to <= cs@.len(),
    ensures
        r == leading_number(cs@.subrange(from as int, to as int)),
{
    let ghost t = cs@.subrange(from as int, to as int);
    let mut dot: Vec<char> = Vec::new();
    dot.push('.');
    assert(dot@ =~= seq!['.']);
    let end = match find_in_range(cs, from, to, &dot) {
        Some(d) => {
            assert(t.take(d - from) =~= cs@.subrange(from as int, d as int));
            d
        },
        None => to,
    };
    match parse_u16_in_range(cs, from, end) {
        Some(x) => x,
        None => 0,
    }
}

/// The major version named by `cs[vs..ve]`.
fn major_in_range(cs: &Vec<char>, vs: usize, ve: usize) -> (r: u16)
    requires
        vs <= ve <= cs@.len(),
    ensures
        r == major_from_version(cs@.subrange(vs as int, ve as int)),
{
    let ghost v = cs@.subrange(vs as int, ve as int);
    if ve - vs >= 2 && cs[vs] == '1' && cs[vs + 1] == '.' {
        assert(v.take(2) =~= seq!['1', '.']);
        assert(v.skip(2) =~= cs@.subrange(vs + 2, ve as int));
        leading_number_in_range(cs, vs + 2, ve)
    } else {
        assert(!starts_with(v, seq!['1', '.'])) by {
            if starts_with(v, seq!['1', '.']) {
                assert(v.take(2)[0] == '1');
                assert(v.take(2)[1] == '.');
            }
        }
        leading_number_in_range(cs, vs, ve)
    }
}

/// Reads major version, bitness and full version text from `java -version` output.
pub fn parse_java_version_output(output: &str) -> (r: (u16, Bitness, String))
    ensures
        (r.0, r.1, r.2@) == version_report(output@),
{
    let cs = chars_of(output);
    let bounds = line_bounds(&cs);
    let ghost ls = lines_of(output@);
    assert(ls.len() == bounds@.len());
    if bounds.len() == 0 {
        return (0, Bitness::Unknown, String::new());
    }
    let (a, b) = bounds[0];
    assert(ls[0] == cs@.subrange(a as int, b as int));
    let mut quote: Vec<char> = Vec::new();
    quote.push('"');
    assert(quote@ =~= seq!['"']);
    let ghost line = cs@.subrange(a as int, b as int);
    let (vs, ve) = match find_in_range(&cs, a, b, &quote) {
        Some(i) => {
            proof {
                lemma_find_seq(line, seq!['"']);
            }
            assert(line.skip(i - a + 1) =~= cs@.subrange(i + 1, b as int));
            match find_in_range(&cs, i + 1, b, &quote) {
                Some(j) => {
                    assert(cs@.subrange(i + 1, b as int).take(j - i - 1) =~= cs@.subrange(
                        i + 1,
                        j as int,
                    ));
                    (i + 1, j)
                },
                None => (i + 1, b),
            }
        },
        None => {
            assert(cs@.subrange(a as int, a as int) =~= Seq::<char>::empty());
            (a, a)
        },
    };
    assert(quoted_version(line) == cs@.subrange(vs as int, ve as int));
    let full_version = String::from_str(output.substring_char(vs, ve));
    let major = major_in_range(&cs, vs, ve);
    assert(major == version_report(output@).0);
    assert(full_version@ == version_report(output@).2);
    // bitness: the first line that names one decides
    let p64 = chars_of("64-bit");
    let p32 = chars_of("32-bit");
    let mut bitness = Bitness::Unknown;
    let mut k: usize = 0;
    assert(ls.skip(0) =~= ls);
    while k < bounds.len()
        invariant
            ranges_text(cs@, bounds@) == ls,
            forall|i: int| 0 <= i < bounds@.len() ==> (#[trigger] bounds@[i]).0 <= bounds@[i].1
                <= cs@.len(),
            p64@ == "64-bit"@,
            p32@ == "32-bit"@,
            k <= bounds@.len(),
            ls == lines_of(output@),
            ls.len() > 0,
            major == version_report(output@).0,
            full_version@ == version_report(output@).2,
            bitness == Bitness::Unknown,
            bitness_of_lines(ls) == bitness_of_lines(ls.skip(k as int)),
        decreases bounds@.len() - k,
    {
        let (la, lb) = bounds[k];
        assert(ls[k as int] == cs@.subrange(la as int, lb as int));
        assert(ls.skip(k as int)[0] == ls[k as int]);
        if contains_ignoring_case_in_range(&cs, la, lb, &p64) {
            return (major, Bitness::Bit64, full_version);
        }
        if contains_ignoring_case_in_range(&cs, la, lb, &p32) {
            return (major, Bitness::Bit32, full_version);
        }
        proof {
            lemma_bitness_step(ls, k as int);
        }
        k = k + 1;
    }
    assert(ls.skip(k as int) =~= Seq::<Seq<char>>::empty());
    (major, bitness, full_version)
}

/// In a text of digits followed by a dot, the first dot is the one after the digits.
proof fn lemma_first_dot_after_digits(d: Seq<char>, rest: Seq<char>)
    requires
        all_ascii_digits(d),
    ensures
        find_seq(d + seq!['.'] + rest, seq!['.']) == Some(d.len()),
        (d + seq!['.'] + rest).take(d.len() as int) == d,
{
    let v = d + seq!['.'] + rest;
    assert(v.subrange(d.len() as int, d.len() as int + 1) =~= seq!['.']);
    assert forall|j: int| 0 <= j < d.len() implies !#[trigger] matches_at(v, seq!['.'], j) by {
        assert(v.subrange(j, j + 1)[0] == d[j]);
        assert(is_ascii_digit(d[j]));
    }
    lemma_find_seq_is(v, seq!['.'], d.len() as int);
    assert(v.take(d.len() as int) =~= d);
}

/// A digit text that fits in 16 bits and does not begin with `+` reads as its value.
proof fn lemma_parse_digits(d: Seq<char>)
    requires
        d.len() > 0,
        all_ascii_digits(d),
        digits_value(d) <= 65535,
    ensures
        u16_or_zero(d) == digits_value(d),
{
    assert(is_ascii_digit(d[0]));
}

/// New version scheme (`17.0.9`): the major version is the number before the first dot.
pub proof fn lemma_major_of_new_scheme(d: Seq<char>, rest: Seq<char>)
    requires
        d.len() > 0,
        all_ascii_digits(d),
        digits_value(d) <= 65535,
        d != seq!['1'],
    ensures
        major_from_version(d + seq!['.'] + rest) == digits_value(d),
{
    let v = d + seq!['.'] + rest;
    lemma_first_dot_after_digits(d, rest);
    lemma_parse_digits(d);
    assert(!starts_with(v, seq!['1', '.'])) by {
        if starts_with(v, seq!['1', '.']) {
            assert(v.take(2)[0] == '1' && v.take(2)[1] == '.');
            if d.len() == 1 {
                assert(d =~= seq!['1']);
            } else {
                assert(v[1] == d[1]);
                assert(is_ascii_digit(d[1]));
            }
        }
    }
}

/// A version text that is a bare number (`21`) names that number as its major version.
pub proof fn lemma_major_of_bare_number(d: Seq<char>)
    requires
        d.len() > 0,
        all_ascii_digits(d),
        digits_value(d) <= 65535,
    ensures
        major_from_version(d) == digits_value(d),
{
    lemma_parse_digits(d);
    assert forall|j: int| !#[trigger] matches_at(d, seq!['.'], j) by {
        if matches_at(d, seq!['.'], j) {
            assert(d.subrange(j, j + 1)[0] == d[j]);
            assert(is_ascii_digit(d[j]));
        }
    }
    lemma_find_seq_none(d, seq!['.']);
    if starts_with(d, seq!['1', '.']) {
        assert(d.take(2)[1] == d[1]);
        assert(is_ascii_digit(d[1]));
    }
}

/// Old version scheme (`1.8.0_391`): the major version is the number between `1.` and
/// the next dot.
pub proof fn lemma_major_of_old_scheme(d: Seq<char>, rest: Seq<char>)
    requires
        d.len() > 0,
        all_ascii_digits(d),
        digits_value(d) <= 65535,
    ensures
        major_from_version(seq!['1', '.'] + d + seq!['.'] + rest) == digits_value(d),
{
    let v = seq!['1', '.'] + d + seq!['.'] + rest;
    assert(v.take(2) =~= seq!['1', '.']);
    assert(v.skip(2) =~= d + seq!['.'] + rest);
    lemma_first_dot_after_digits(d, rest);
    lemma_parse_digits(d);
}

// ---------------------------------------------------------------------------
// Recommended Java for a Minecraft version
// ---------------------------------------------------------------------------

/// The release part of a Minecraft version: everything before the second dot
/// (`1.20.1` gives `1.20`), or the whole text when it has fewer than two dots.
pub open spec fn minecraft_release(v: Seq<char>) -> Seq<char> {
    match find_seq(v, seq!['.']) {
        Some(i) => match find_seq(v.skip(i as int + 1), seq!['.']) {
            Some(j) => v.take(i as int + 1 + j as int),
            None => v,
        },
        None => v,
    }
}

/// The Java major version recommended for a Minecraft release; 17 for releases
/// that the table does not list.
pub open spec fn recommended_java_for_release(r: Seq<char>) -> u16 {
    if r == "1.7"@ || r == "1.8"@ || r == "1.9"@ || r == "1.10"@ || r == "1.11"@ || r == "1.12"@
        || r == "1.13"@ || r == "1.14"@ || r == "1.15"@ || r == "1.16"@ {
        8
    } else if r == "1.17"@ {
        16
    } else if r == "1.18"@ || r == "1.19"@ || r == "1.20"@ {
        17
    } else if r == "1.21"@ {
        21
    } else {
        17
    }
}

/// The patch number of a Minecraft version does not matter: a release with one dot,
/// followed by a dot and anything, has that release as its release part, and so gets
/// the same recommendation.
pub proof fn lemma_patch_does_not_matter(release: Seq<char>, patch: Seq<char>)
    requires
        find_seq(release, seq!['.']) is Some,
        find_seq(release.skip(find_seq(release, seq!['.'])->0 as int + 1), seq!['.']) is None,
    ensures
        minecraft_release(release + seq!['.'] + patch) == release,
        recommended_java_for_release(minecraft_release(release + seq!['.'] + patch))
            == recommended_java_for_release(release),
{
    let k = release;
    let v = k + seq!['.'] + patch;
    let i = find_seq(k, seq!['.'])->0 as int;
    lemma_find_seq(k, seq!['.']);
    assert(matches_at(v, seq!['.'], i)) by {
        assert(v.subrange(i, i + 1) =~= k.subrange(i, i + 1));
    }
    assert forall|j: int| 0 <= j < i implies !#[trigger] matches_at(v, seq!['.'], j) by {
        assert(v.subrange(j, j + 1) =~= k.subrange(j, j + 1));
        assert(!matches_at(k, seq!['.'], j));
    }
    lemma_find_seq_is(v, seq!['.'], i);
    let ks = k.skip(i + 1);
    let w = v.skip(i + 1);
    assert(w =~= ks + seq!['.'] + patch);
    lemma_find_seq(ks, seq!['.']);
    let m = ks.len() as int;
    assert(matches_at(w, seq!['.'], m)) by {
        assert(w.subrange(m, m + 1) =~= seq!['.']);
    }
    assert forall|j: int| 0 <= j < m implies !#[trigger] matches_at(w, seq!['.'], j) by {
        assert(w.subrange(j, j + 1) =~= ks.subrange(j, j + 1));
        assert(!matches_at(ks, seq!['.'], j));
    }
    lemma_find_seq_is(w, seq!['.'], m);
    assert(v.take(i + 1 + m) =~= k);
}

/// A release text `1.<digits>` has one dot, after the `1`.
proof fn lemma_release_shape(r: Seq<char>)
    requires
        r.len() >= 2,
        r[0] == '1',
        r[1] == '.',
        forall|k: int| 2 <= k < r.len() ==> r[k] != '.',
    ensures
        find_seq(r, seq!['.']) == Some(1nat),
        find_seq(r.skip(2), seq!['.']) is None,
        minecraft_release(r) == r,
{
    assert(matches_at(r, seq!['.'], 1)) by {
        assert(r.subrange(1, 2) =~= seq!['.']);
    }
    assert(!matches_at(r, seq!['.'], 0)) by {
        assert(r.subrange(0, 1)[0] == '1');
    }
    lemma_find_seq_is(r, seq!['.'], 1);
    assert forall|j: int| !#[trigger] matches_at(r.skip(2), seq!['.'], j) by {
        if matches_at(r.skip(2), seq!['.'], j) {
            assert(r.skip(2).subrange(j, j + 1)[0] == r[j + 2]);
        }
    }
    lemma_find_seq_none(r.skip(2), seq!['.']);
}

/// One release of the table: its recommendation holds for the release and for any
/// patch of it.
proof fn lemma_table_entry(r: Seq<char>, patch: Seq<char>)
    requires
        r.len() >= 2,
        r[0] == '1',
        r[1] == '.',
        forall|k: int| 2 <= k < r.len() ==> r[k] != '.',
    ensures
        minecraft_release(r) == r,
        minecraft_release(r + seq!['.'] + patch) == r,
{
    lemma_release_shape(r);
    lemma_patch_does_not_matter(r, patch);
}

/// The recommendation table: Minecraft 1.7 through 1.16 get Java 8, 1.17 gets Java 16,
/// 1.18 through 1.20 get Java 17 and 1.21 gets Java 21, for the release itself and for
/// every patch of it.
pub proof fn lemma_recommendation_table(patch: Seq<char>)
    ensures
        recommended_java_for_release(minecraft_release("1.7"@)) == 8,
        recommended_java_for_release(minecraft_release("1.7"@ + seq!['.'] + patch)) == 8,
        recommended_java_for_release(minecraft_release("1.8"@)) == 8,
        recommended_java_for_release(minecraft_release("1.8"@ + seq!['.'] + patch)) == 8,
        recommended_java_for_release(minecraft_release("1.9"@)) == 8,
        recommended_java_for_release(minecraft_release("1.9"@ + seq!['.'] + patch)) == 8,
        recommended_java_for_release(minecraft_release("1.10"@)) == 8,
        recommended_java_for_release(minecraft_release("1.10"@ + seq!['.'] + patch)) == 8,
        recommended_java_for_release(minecraft_release("1.11"@)) == 8,
        recommended_java_for_release(minecraft_release("1.11"@ + seq!['.'] + patch)) == 8,
        recommended_java_for_release(minecraft_release("1.12"@)) == 8,
        recommended_java_for_release(minecraft_release("1.12"@ + seq!['.'] + patch)) == 8,
        recommended_java_for_release(minecraft_release("1.13"@)) == 8,
        recommended_java_for_release(minecraft_release("1.13"@ + seq!['.'] + patch)) == 8,
        recommended_java_for_release(minecraft_release("1.14"@)) == 8,
        recommended_java_for_release(minecraft_release("1.14"@ + seq!['.'] + patch)) == 8,
        recommended_java_for_release(minecraft_release("1.15"@)) == 8,
        recommended_java_for_release(minecraft_release("1.15"@ + seq!['.'] + patch)) == 8,
        recommended_java_for_release(minecraft_release("1.16"@)) == 8,
        recommended_java_for_release(minecraft_release("1.16"@ + seq!['.'] + patch)) == 8,
        recommended_java_for_release(minecraft_release("1.17"@)) == 16,
        recommended_java_for_release(minecraft_release("1.17"@ + seq!['.'] + patch)) == 16,
        recommended_java_for_release(minecraft_release("1.18"@)) == 17,
        recommended_java_for_release(minecraft_release("1.18"@ + seq!['.'] + patch)) == 17,
        recommended_java_for_release(minecraft_release("1.19"@)) == 17,
        recommended_java_for_release(minecraft_release("1.19"@ + seq!['.'] + patch)) == 17,
        recommended_java_for_release(minecraft_release("1.20"@)) == 17,
        recommended_java_for_release(minecraft_release("1.20"@ + seq!['.'] + patch)) == 17,
        recommended_java_for_release(minecraft_release("1.21"@)) == 21,
        recommended_java_for_release(minecraft_release("1.21"@ + seq!['.'] + patch)) == 21,
{
    reveal_strlit("1.7");
    lemma_table_entry("1.7"@, patch);
    reveal_strlit("1.8");
    lemma_table_entry("1.8"@, patch);
    reveal_strlit("1.9");
    lemma_table_entry("1.9"@, patch);
    reveal_strlit("1.10");
    lemma_table_entry("1.10"@, patch);
    reveal_strlit("1.11");
    lemma_table_entry("1.11"@, patch);
    reveal_strlit("1.12");
    lemma_table_entry("1.12"@, patch);
    reveal_strlit("1.13");
    lemma_table_entry("1.13"@, patch);
    reveal_strlit("1.14");
    lemma_table_entry("1.14"@, patch);
    reveal_strlit("1.15");
    lemma_table_entry("1.15"@, patch);
    reveal_strlit("1.16");
    lemma_table_entry("1.16"@, patch);
    reveal_strlit("1.17");
    lemma_table_entry("1.17"@, patch);
    assert("1.17"@.len() != "1.7"@.len());
    assert("1.17"@.len() != "1.8"@.len());
    assert("1.17"@.len() != "1.9"@.len());
    assert("1.17"@[3] != "1.10"@[3]);
    assert("1.17"@[3] != "1.11"@[3]);
    assert("1.17"@[3] != "1.12"@[3]);
    assert("1.17"@[3] != "1.13"@[3]);
    assert("1.17"@[3] != "1.14"@[3]);
    assert("1.17"@[3] != "1.15"@[3]);
    assert("1.17"@[3] != "1.16"@[3]);
    reveal_strlit("1.18");
    lemma_table_entry("1.18"@, patch);
    assert("1.18"@.len() != "1.7"@.len());
    assert("1.18"@.len() != "1.8"@.len());
    assert("1.18"@.len() != "1.9"@.len());
    assert("1.18"@[3] != "1.10"@[3]);
    assert("1.18"@[3] != "1.11"@[3]);
    assert("1.18"@[3] != "1.12"@[3]);
    assert("1.18"@[3] != "1.13"@[3]);
    assert("1.18"@[3] != "1.14"@[3]);
    assert("1.18"@[3] != "1.15"@[3]);
    assert("1.18"@[3] != "1.16"@[3]);
    assert("1.18"@[3] != "1.17"@[3]);
    reveal_strlit("1.19");
    lemma_table_entry("1.19"@, patch);
    assert("1.19"@.len() != "1.7"@.len());
    assert("1.19"@.len() != "1.8"@.len());
    assert("1.19"@.len() != "1.9"@.len());
    assert("1.19"@[3] != "1.10"@[3]);
    assert("1.19"@[3] != "1.11"@[3]);
    assert("1.19"@[3] != "1.12"@[3]);
    assert("1.19"@[3] != "1.13"@[3]);
    assert("1.19"@[3] != "1.14"@[3]);
    assert("1.19"@[3] != "1.15"@[3]);
    assert("1.19"@[3] != "1.16"@[3]);
    assert("1.19"@[3] != "1.17"@[3]);
    reveal_strlit("1.20");
    lemma_table_entry("1.20"@, patch);
    assert("1.20"@.len() != "1.7"@.len());
    assert("1.20"@.len() != "1.8"@.len());
    assert("1.20"@.len() != "1.9"@.len());
    assert("1.20"@[2] != "1.10"@[2]);
    assert("1.20"@[2] != "1.11"@[2]);
    assert("1.20"@[2] != "1.12"@[2]);
    assert("1.20"@[2] != "1.13"@[2]);
    assert("1.20"@[2] != "1.14"@[2]);
    assert("1.20"@[2] != "1.15"@[2]);
    assert("1.20"@[2] != "1.16"@[2]);
    assert("1.20"@[2] != "1.17"@[2]);
    reveal_strlit("1.21");
    lemma_table_entry("1.21"@, patch);
    assert("1.21"@.len() != "1.7"@.len());
    assert("1.21"@.len() != "1.8"@.len());
    assert("1.21"@.len() != "1.9"@.len());
    assert("1.21"@[2] != "1.10"@[2]);
    assert("1.21"@[2] != "1.11"@[2]);
    assert("1.21"@[2] != "1.12"@[2]);
    assert("1.21"@[2] != "1.13"@[2]);
    assert("1.21"@[2] != "1.14"@[2]);
    assert("1.21"@[2] != "1.15"@[2]);
    assert("1.21"@[2] != "1.16"@[2]);
    assert("1.21"@[2] != "1.17"@[2]);
    assert("1.21"@[2] != "1.18"@[2]);
    assert("1.21"@[2] != "1.19"@[2]);
    assert("1.21"@[3] != "1.20"@[3]);
}

/// The Java major version recommended for a Minecraft version.
pub fn get_recommended_java_major_version(minecraft_version: &str) -> (r: u16)
    ensures
        r == recommended_java_for_release(minecraft_release(minecraft_version@)),
        r == 8 || r == 16 || r == 17 || r == 21,
{
    let cs = chars_of(minecraft_version);
    let n = cs.len();
    let mut dot: Vec<char> = Vec::new();
    dot.push('.');
    assert(dot@ =~= seq!['.']);
    assert(cs@.subrange(0, n as int) =~= cs@);
    let end = match find_in_range(&cs, 0, n, &dot) {
        Some(i) => {
            proof {
                lemma_find_seq(cs@, seq!['.']);
            }
            assert(cs@.skip(i + 1) =~= cs@.subrange(i + 1, n as int));
            match find_in_range(&cs, i + 1, n, &dot) {
                Some(j) => {
                    proof {
                        lemma_find_seq(cs@.skip(i + 1), seq!['.']);
                    }
                    j
                },
                None => n,
            }
        },
        None => n,
    };
    assert(minecraft_release(minecraft_version@) =~= cs@.subrange(0, end as int));
    let key = minecraft_version.substring_char(0, end);
    if str_equal(key, "1.7") || str_equal(key, "1.8") || str_equal(key, "1.9") || str_equal(
        key,
        "1.10",
    ) || str_equal(key, "1.11") || str_equal(key, "1.12") || str_equal(key, "1.13") || str_equal(
        key,
        "1.14",
    ) || str_equal(key, "1.15") || str_equal(key, "1.16") {
        8
    } else if str_equal(key, "1.17") {
        16
    } else if str_equal(key, "1.18") || str_equal(key, "1.19") || str_equal(key, "1.20") {
        17
    } else if str_equal(key, "1.21") {
        21
    } else {
        17
    }
}

} // verus!
