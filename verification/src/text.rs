use vstd::prelude::*;

verus! {

// ---------------------------------------------------------------------------
// Specifications over character sequences
// ---------------------------------------------------------------------------

/// `pat` occurs in `s` starting at index `i`.
pub open spec fn matches_at(s: Seq<char>, pat: Seq<char>, i: int) -> bool {
    &&& 0 <= i
    &&& i + pat.len() <= s.len()
    &&& s.subrange(i, i + pat.len()) == pat
}

/// Index of the first occurrence of `pat` in `s`.
pub open spec fn find_seq(s: Seq<char>, pat: Seq<char>) -> Option<nat>
    decreases s.len(),
{
    if pat.len() > s.len() {
        None
    } else if s.take(pat.len() as int) == pat {
        Some(0)
    } else if s.len() == 0 {
        None
    } else {
        match find_seq(s.drop_first(), pat) {
            Some(i) => Some(i + 1),
            None => None,
        }
    }
}

/// `pat` occurs somewhere in `s`.
pub open spec fn contains_seq(s: Seq<char>, pat: Seq<char>) -> bool {
    find_seq(s, pat) is Some
}

/// `s` begins with `pat`.
pub open spec fn starts_with(s: Seq<char>, pat: Seq<char>) -> bool {
    pat.len() <= s.len() && s.take(pat.len() as int) == pat
}

/// The code of `c` after folding the ASCII capitals `A`..`Z` to lower case.
pub open spec fn ascii_folded(c: char) -> u32 {
    let u = c as u32;
    if 65 <= u && u <= 90 {
        (u + 32) as u32
    } else {
        u
    }
}

/// `pat` occurs in `s` at index `i`, ignoring ASCII case.
pub open spec fn matches_at_ignoring_case(s: Seq<char>, pat: Seq<char>, i: int) -> bool {
    &&& 0 <= i
    &&& i + pat.len() <= s.len()
    &&& forall|k: int| 0 <= k < pat.len() ==> #[trigger] ascii_folded(s[i + k]) == ascii_folded(pat[k])
}

/// `pat` occurs somewhere in `s`, ignoring ASCII case.
pub open spec fn contains_ignoring_case(s: Seq<char>, pat: Seq<char>) -> bool {
    exists|i: int| matches_at_ignoring_case(s, pat, i)
}

/// `a` and `b` are equal, ignoring ASCII case.
pub open spec fn eq_ignoring_case(a: Seq<char>, b: Seq<char>) -> bool {
    a.len() == b.len() && matches_at_ignoring_case(a, b, 0)
}

/// Unicode `White_Space` characters.
pub open spec fn is_white_space(c: char) -> bool {
    let u = c as u32;
    ||| 9 <= u && u <= 13
    ||| u == 32
    ||| u == 0x85
    ||| u == 0xa0
    ||| u == 0x1680
    ||| 0x2000 <= u && u <= 0x200a
    ||| u == 0x2028
    ||| u == 0x2029
    ||| u == 0x202f
    ||| u == 0x205f
    ||| u == 0x3000
}

/// `s` without its leading white space.
pub open spec fn trim_start(s: Seq<char>) -> Seq<char>
    decreases s.len(),
{
    if s.len() > 0 && is_white_space(s[0]) {
        trim_start(s.drop_first())
    } else {
        s
    }
}

/// `s` without its trailing white space.
pub open spec fn trim_end(s: Seq<char>) -> Seq<char>
    decreases s.len(),
{
    if s.len() > 0 && is_white_space(s.last()) {
        trim_end(s.drop_last())
    } else {
        s
    }
}

/// `s` without leading and trailing white space.
pub open spec fn trim(s: Seq<char>) -> Seq<char> {
    trim_end(trim_start(s))
}

/// A line as it is handed out: one carriage return before the line feed is dropped.
pub open spec fn strip_carriage_return(line: Seq<char>) -> Seq<char> {
    if line.len() > 0 && line.last() == '\r' {
        line.drop_last()
    } else {
        line
    }
}

/// The lines of `s`: split at line feeds, a carriage return directly before a line
/// feed dropped, and no empty line after a final line feed.
pub open spec fn lines_of(s: Seq<char>) -> Seq<Seq<char>>
    decreases s.len(),
{
    if s.len() == 0 {
        seq![]
    } else {
        match find_seq(s, seq!['\n']) {
            Some(i) => if i < s.len() {
                seq![strip_carriage_return(s.take(i as int))] + lines_of(s.skip(i as int + 1))
            } else {
                seq![s]
            },
            None => seq![s],
        }
    }
}

pub open spec fn is_ascii_digit(c: char) -> bool {
    48 <= (c as u32) && (c as u32) <= 57
}

pub open spec fn all_ascii_digits(d: Seq<char>) -> bool {
    forall|k: int| 0 <= k < d.len() ==> #[trigger] is_ascii_digit(d[k])
}

/// The number that the decimal digits `d` denote.
pub open spec fn digits_value(d: Seq<char>) -> nat
    decreases d.len(),
{
    if d.len() == 0 {
        0
    } else {
        digits_value(d.drop_last()) * 10 + ((d.last() as u32) - 48) as nat
    }
}

/// Decimal reading of a `u16`: an optional `+`, then at least one ASCII digit, and a
/// value that fits in 16 bits.
pub open spec fn parse_u16(t: Seq<char>) -> Option<u16> {
    let d = if t.len() > 0 && t[0] == '+' {
        t.drop_first()
    } else {
        t
    };
    if d.len() == 0 || !all_ascii_digits(d) || digits_value(d) > 65535 {
        None
    } else {
        Some(digits_value(d) as u16)
    }
}

// ---------------------------------------------------------------------------
// Lemmas
// ---------------------------------------------------------------------------

/// `find_seq` gives the first index at which the pattern occurs.
pub proof fn lemma_find_seq(s: Seq<char>, pat: Seq<char>)
    ensures
        match find_seq(s, pat) {
            Some(i) => matches_at(s, pat, i as int) && forall|j: int|
                0 <= j < i ==> !#[trigger] matches_at(s, pat, j),
            None => forall|j: int| !#[trigger] matches_at(s, pat, j),
        },
    decreases s.len(),
{
    if pat.len() > s.len() {
    } else if s.take(pat.len() as int) == pat {
        assert(s.subrange(0, pat.len() as int) == s.take(pat.len() as int));
    } else if s.len() == 0 {
    } else {
        lemma_find_seq(s.drop_first(), pat);
        assert(!matches_at(s, pat, 0)) by {
            assert(s.subrange(0, pat.len() as int) == s.take(pat.len() as int));
        }
        assert forall|j: int| 1 <= j && matches_at(s, pat, j) implies matches_at(
            s.drop_first(),
            pat,
            j - 1,
        ) by {
            assert(s.drop_first().subrange(j - 1, j - 1 + pat.len()) =~= s.subrange(
                j,
                j + pat.len(),
            ));
        }
        assert forall|j: int| 1 <= j && matches_at(s.drop_first(), pat, j - 1) implies matches_at(
            s,
            pat,
            j,
        ) by {
            assert(s.drop_first().subrange(j - 1, j - 1 + pat.len()) =~= s.subrange(
                j,
                j + pat.len(),
            ));
        }
        match find_seq(s.drop_first(), pat) {
            Some(i) => {
                assert(matches_at(s, pat, i as int + 1));
                assert forall|j: int| 0 <= j < i + 1 implies !#[trigger] matches_at(
                    s,
                    pat,
                    j,
                ) by {
                    if j >= 1 && matches_at(s, pat, j) {
                        assert(matches_at(s.drop_first(), pat, j - 1));
                    }
                }
            },
            None => {
                assert forall|j: int| !#[trigger] matches_at(s, pat, j) by {
                    if j >= 1 && matches_at(s, pat, j) {
                        assert(matches_at(s.drop_first(), pat, j - 1));
                    }
                }
            },
        }
    }
}

/// The first index at which the pattern occurs is what `find_seq` gives.
pub proof fn lemma_find_seq_is(s: Seq<char>, pat: Seq<char>, i: int)
    requires
        matches_at(s, pat, i),
        forall|j: int| 0 <= j < i ==> !#[trigger] matches_at(s, pat, j),
    ensures
        find_seq(s, pat) == Some(i as nat),
{
    lemma_find_seq(s, pat);
    match find_seq(s, pat) {
        Some(k) => {
            if k < i {
                assert(matches_at(s, pat, k as int));
            } else if k > i {
                assert(!matches_at(s, pat, i));
            }
        },
        None => {
            assert(!matches_at(s, pat, i));
        },
    }
}

/// A pattern that occurs nowhere gives no index.
pub proof fn lemma_find_seq_none(s: Seq<char>, pat: Seq<char>)
    requires
        forall|j: int| !#[trigger] matches_at(s, pat, j),
    ensures
        find_seq(s, pat) is None,
{
    lemma_find_seq(s, pat);
    if let Some(k) = find_seq(s, pat) {
        assert(matches_at(s, pat, k as int));
    }
}

/// The value of a digit string is at least the value of each of its prefixes.
pub proof fn lemma_digits_value_prefix(d: Seq<char>, k: int)
    requires
        0 <= k <= d.len(),
    ensures
        digits_value(d.take(k)) <= digits_value(d),
    decreases d.len(),
{
    if k < d.len() {
        lemma_digits_value_prefix(d.drop_last(), k);
        assert(d.drop_last().take(k) =~= d.take(k));
        assert(digits_value(d.drop_last()) <= digits_value(d));
    } else {
        assert(d.take(k) =~= d);
    }
}

/// Splitting into lines: a text without a line feed is one line (none when empty); a
/// line feed ends the line before it, dropping one carriage return just before it.
pub proof fn lemma_lines_of_split(first: Seq<char>, rest: Seq<char>)
    requires
        !first.contains('\n'),
    ensures
        first.len() > 0 ==> lines_of(first) == seq![first],
        lines_of(Seq::<char>::empty()) == Seq::<Seq<char>>::empty(),
        lines_of(first + seq!['\n'] + rest) == seq![strip_carriage_return(first)] + lines_of(rest),
        lines_of(first + seq!['\r', '\n'] + rest) == seq![first] + lines_of(rest),
{
    let nl = seq!['\n'];
    let f = first.len() as int;
    assert forall|j: int| !#[trigger] matches_at(first, nl, j) by {
        if 0 <= j < f {
            assert(first.subrange(j, j + 1)[0] == first[j]);
        }
    }
    lemma_find_seq_none(first, nl);
    let s1 = first + nl + rest;
    assert forall|j: int| 0 <= j < f implies !#[trigger] matches_at(s1, nl, j) by {
        assert(s1.subrange(j, j + 1)[0] == first[j]);
    }
    assert(matches_at(s1, nl, f)) by {
        assert(s1.subrange(f, f + 1) =~= nl);
    }
    lemma_find_seq_is(s1, nl, f);
    assert(s1.take(f) =~= first);
    assert(s1.skip(f + 1) =~= rest);
    let fc = first + seq!['\r'];
    assert(!fc.contains('\n')) by {
        if fc.contains('\n') {
            let k = choose|k: int| 0 <= k < fc.len() && fc[k] == '\n';
            if k < f {
                assert(first[k] == '\n');
            }
        }
    }
    let s2 = first + seq!['\r', '\n'] + rest;
    assert(s2 =~= fc + nl + rest);
    assert forall|j: int| 0 <= j < fc.len() implies !#[trigger] matches_at(s2, nl, j) by {
        assert(s2.subrange(j, j + 1)[0] == fc[j]);
    }
    assert(matches_at(s2, nl, fc.len() as int)) by {
        assert(s2.subrange(fc.len() as int, fc.len() as int + 1) =~= nl);
    }
    lemma_find_seq_is(s2, nl, fc.len() as int);
    assert(s2.take(fc.len() as int) =~= fc);
    assert(s2.skip(fc.len() as int + 1) =~= rest);
    assert(fc.drop_last() =~= first);
}

/// `trim_start` leaves a text whose first character is not white space.
proof fn lemma_trim_start_result(s: Seq<char>)
    ensures
        trim_start(s).len() == 0 || !is_white_space(trim_start(s)[0]),
    decreases s.len(),
{
    if s.len() > 0 && is_white_space(s[0]) {
        lemma_trim_start_result(s.drop_first());
    }
}

/// `trim_end` leaves a prefix of its argument whose last character is not white space.
proof fn lemma_trim_end_result(s: Seq<char>)
    ensures
        trim_end(s).len() <= s.len(),
        trim_end(s) == s.take(trim_end(s).len() as int),
        trim_end(s).len() == 0 || !is_white_space(trim_end(s).last()),
    decreases s.len(),
{
    if s.len() > 0 && is_white_space(s.last()) {
        lemma_trim_end_result(s.drop_last());
        assert(s.drop_last().take(trim_end(s).len() as int) =~= s.take(trim_end(s).len() as int));
    } else {
        assert(s.take(s.len() as int) =~= s);
    }
}

/// Trimming a trimmed text changes nothing.
pub proof fn lemma_trim_idempotent(s: Seq<char>)
    ensures
        trim(trim(s)) == trim(s),
{
    let t = trim_start(s);
    let u = trim_end(t);
    lemma_trim_start_result(s);
    lemma_trim_end_result(t);
    if u.len() > 0 {
        assert(u[0] == t[0]);
    }
    assert(trim_start(u) == u);
    assert(trim_end(u) == u);
}

// ---------------------------------------------------------------------------
// Executable helpers
// ---------------------------------------------------------------------------

/// The characters of `s`.
pub fn chars_of(s: &str) -> (r: Vec<char>)
    ensures
        r@ == s@,
{
    let n = s.unicode_len();
    let mut r: Vec<char> = Vec::new();
    let mut i: usize = 0;
    while i < n
        invariant
            n == s@.len(),
            i <= n,
            r@ == s@.take(i as int),
        decreases n - i,
    {
        let c = s.get_char(i);
        r.push(c);
        i = i + 1;
        assert(r@ =~= s@.take(i as int));
    }
    assert(r@ =~= s@);
    r
}

/// Whether `pat` occurs in `cs` at index `i`.
pub fn matches_at_exec(cs: &Vec<char>, pat: &Vec<char>, i: usize) -> (r: bool)
    ensures
        r == matches_at(cs@, pat@, i as int),
{
    if pat.len() > cs.len() || i > cs.len() - pat.len() {
        return false;
    }
    let mut k: usize = 0;
    while k < pat.len()
        invariant
            i + pat@.len() <= cs@.len(),
            cs@.len() == cs.len(),
            k <= pat@.len(),
            forall|m: int| 0 <= m < k ==> cs@[i + m] == pat@[m],
        decreases pat@.len() - k,
    {
        if cs[i + k] != pat[k] {
            assert(cs@.subrange(i as int, i + pat@.len())[k as int] != pat@[k as int]);
            return false;
        }
        k = k + 1;
    }
    assert(cs@.subrange(i as int, i + pat@.len()) =~= pat@);
    true
}

/// First occurrence of `pat` in `cs[from..to]`, as an index into `cs`.
pub fn find_in_range(cs: &Vec<char>, from: usize, to: usize, pat: &Vec<char>) -> (r: Option<usize>)
    requires
        from <= to <= cs@.len(),
    ensures
        match r {
            Some(k) => from <= k && k + pat@.len() <= to && find_seq(
                cs@.subrange(from as int, to as int),
                pat@,
            ) == Some(
                (k - from) as nat,
            ),
            None => find_seq(cs@.subrange(from as int, to as int), pat@) is None,
        },
{
    let ghost sub = cs@.subrange(from as int, to as int);
    if pat.len() > to - from {
        proof {
            assert forall|j: int| !#[trigger] matches_at(sub, pat@, j) by {}
            lemma_find_seq_none(sub, pat@);
        }
        return None;
    }
    if pat.len() == 0 {
        proof {
            assert(sub.subrange(0, 0) =~= pat@);
            lemma_find_seq_is(sub, pat@, 0);
        }
        return Some(from);
    }
    let last = to - pat.len();
    let mut i: usize = from;
    while i <= last
        invariant
            from <= i,
            last + pat@.len() == to,
            pat@.len() > 0,
            to <= cs@.len(),
            sub == cs@.subrange(from as int, to as int),
            forall|j: int| 0 <= j < i - from ==> !#[trigger] matches_at(sub, pat@, j),
        decreases last + 1 - i,
    {
        let m = matches_at_exec(cs, pat, i);
        assert(cs@.subrange(i as int, i + pat@.len()) =~= sub.subrange(
            i - from,
            i - from + pat@.len(),
        ));
        if m {
            proof {
                lemma_find_seq_is(sub, pat@, i - from);
            }
            return Some(i);
        }
        i = i + 1;
    }
    proof {
        assert forall|j: int| !#[trigger] matches_at(sub, pat@, j) by {
            if 0 <= j < i - from {
            }
        }
        lemma_find_seq_none(sub, pat@);
    }
    None
}

/// Whether `a` and `b` hold the same characters.
pub fn str_equal(a: &str, b: &str) -> (r: bool)
    ensures
        r == (a@ == b@),
{
    let ac = chars_of(a);
    let bc = chars_of(b);
    if ac.len() != bc.len() {
        return false;
    }
    let m = matches_at_exec(&ac, &bc, 0);
    assert(ac@.subrange(0, bc@.len() as int) =~= ac@);
    m
}

/// The code of `c` after folding ASCII capitals to lower case.
pub fn ascii_folded_exec(c: char) -> (r: u32)
    ensures
        r == ascii_folded(c),
{
    let u = c as u32;
    if 65 <= u && u <= 90 {
        u + 32
    } else {
        u
    }
}

/// Whether `pat` occurs in `cs` at index `i`, ignoring ASCII case.
pub fn matches_at_ignoring_case_exec(cs: &Vec<char>, pat: &Vec<char>, i: usize) -> (r: bool)
    ensures
        r == matches_at_ignoring_case(cs@, pat@, i as int),
{
    if pat.len() > cs.len() || i > cs.len() - pat.len() {
        return false;
    }
    let mut k: usize = 0;
    while k < pat.len()
        invariant
            i + pat@.len() <= cs@.len(),
            cs@.len() == cs.len(),
            k <= pat@.len(),
            forall|m: int| 0 <= m < k ==> ascii_folded(cs@[i + m]) == ascii_folded(pat@[m]),
        decreases pat@.len() - k,
    {
        if ascii_folded_exec(cs[i + k]) != ascii_folded_exec(pat[k]) {
            return false;
        }
        k = k + 1;
    }
    true
}

/// Whether `pat` occurs in `cs[from..to]`, ignoring ASCII case.
pub fn contains_ignoring_case_in_range(cs: &Vec<char>, from: usize, to: usize, pat: &Vec<char>) -> (r:
    bool)
    requires
        from <= to <= cs@.len(),
    ensures
        r == contains_ignoring_case(cs@.subrange(from as int, to as int), pat@),
{
    let ghost sub = cs@.subrange(from as int, to as int);
    if pat.len() > to - from {
        assert forall|j: int| !#[trigger] matches_at_ignoring_case(sub, pat@, j) by {}
        return false;
    }
    if pat.len() == 0 {
        assert(matches_at_ignoring_case(sub, pat@, 0));
        return true;
    }
    let last = to - pat.len();
    let mut i: usize = from;
    while i <= last
        invariant
            from <= i,
            last + pat@.len() == to,
            pat@.len() > 0,
            to <= cs@.len(),
            sub == cs@.subrange(from as int, to as int),
            forall|j: int| 0 <= j < i - from ==> !#[trigger] matches_at_ignoring_case(sub, pat@, j),
        decreases last + 1 - i,
    {
        let m = matches_at_ignoring_case_exec(cs, pat, i);
        if m {
            assert forall|k: int| 0 <= k < pat@.len() implies #[trigger] ascii_folded(
                sub[(i - from) + k],
            ) == ascii_folded(pat@[k]) by {
                assert(sub[(i - from) + k] == cs@[i + k]);
            }
            assert(matches_at_ignoring_case(sub, pat@, i - from));
            return true;
        }
        proof {
            if matches_at_ignoring_case(sub, pat@, i - from) {
                assert forall|k: int| 0 <= k < pat@.len() implies #[trigger] ascii_folded(
                    cs@[i + k],
                ) == ascii_folded(pat@[k]) by {
                    assert(sub[(i - from) + k] == cs@[i + k]);
                }
                assert(false);
            }
        }
        i = i + 1;
    }
    assert forall|j: int| !#[trigger] matches_at_ignoring_case(sub, pat@, j) by {
        if 0 <= j < i - from {
        }
    }
    false
}

pub fn is_white_space_exec(c: char) -> (r: bool)
    ensures
        r == is_white_space(c),
{
    let u = c as u32;
    (9 <= u && u <= 13) || u == 32 || u == 0x85 || u == 0xa0 || u == 0x1680 || (0x2000 <= u && u
        <= 0x200a) || u == 0x2028 || u == 0x2029 || u == 0x202f || u == 0x205f || u == 0x3000
}

proof fn lemma_trim_start_step(s: Seq<char>, i: int)
    requires
        0 <= i < s.len(),
        is_white_space(s[i]),
    ensures
        trim_start(s.skip(i)) == trim_start(s.skip(i + 1)),
{
    assert(s.skip(i).drop_first() =~= s.skip(i + 1));
}

proof fn lemma_trim_end_step(s: Seq<char>, j: int)
    requires
        0 < j <= s.len(),
        is_white_space(s[j - 1]),
    ensures
        trim_end(s.take(j)) == trim_end(s.take(j - 1)),
{
    assert(s.take(j).drop_last() =~= s.take(j - 1));
}

/// `s` without leading and trailing white space.
pub fn trim_str(s: &str) -> (r: String)
    ensures
        r@ == trim(s@),
{
    let cs = chars_of(s);
    let n = cs.len();
    let mut a: usize = 0;
    assert(s@.skip(0) =~= s@);
    while a < n && is_white_space_exec(cs[a])
        invariant
            n == cs@.len(),
            cs@ == s@,
            a <= n,
            trim_start(s@) == trim_start(s@.skip(a as int)),
        decreases n - a,
    {
        proof {
            lemma_trim_start_step(s@, a as int);
        }
        a = a + 1;
    }
    // trim_start(s@) == s@.skip(a)
    assert(trim_start(s@.skip(a as int)) == s@.skip(a as int));
    let ghost rest = s@.skip(a as int);
    let mut b: usize = n;
    assert(rest.take(rest.len() as int) =~= rest);
    while b > a && is_white_space_exec(cs[b - 1])
        invariant
            n == cs@.len(),
            cs@ == s@,
            a <= b <= n,
            rest == s@.skip(a as int),
            trim_end(rest) == trim_end(rest.take(b - a)),
        decreases b,
    {
        proof {
            assert(rest[b - a - 1] == cs@[b - 1]);
            lemma_trim_end_step(rest, b - a);
        }
        b = b - 1;
    }
    assert(trim_end(rest.take(b - a)) == rest.take(b - a));
    let sub = s.substring_char(a, b);
    assert(sub@ =~= rest.take(b - a));
    String::from_str(sub)
}

proof fn lemma_digits_value_step(d: Seq<char>, k: int)
    requires
        0 <= k < d.len(),
    ensures
        digits_value(d.take(k + 1)) == digits_value(d.take(k)) * 10 + ((d[k] as u32) - 48) as nat,
{
    assert(d.take(k + 1).drop_last() =~= d.take(k));
}

/// The decimal `u16` that `cs[from..to]` denotes, if it is one.
pub fn parse_u16_in_range(cs: &Vec<char>, from: usize, to: usize) -> (r: Option<u16>)
    requires
        from <= to <= cs@.len(),
    ensures
        r == parse_u16(cs@.subrange(from as int, to as int)),
{
    let ghost t = cs@.subrange(from as int, to as int);
    let start = if from < to && cs[from] == '+' {
        from + 1
    } else {
        from
    };
    let ghost d = cs@.subrange(start as int, to as int);
    assert(d =~= (if t.len() > 0 && t[0] == '+' {
        t.drop_first()
    } else {
        t
    }));
    if start == to {
        return None;
    }
    let mut acc: u32 = 0;
    let mut k: usize = start;
    assert(d.take(0) =~= Seq::<char>::empty());
    while k < to
        invariant
            start <= k <= to,
            to <= cs@.len(),
            d == cs@.subrange(start as int, to as int),
            t == cs@.subrange(from as int, to as int),
            d == (if t.len() > 0 && t[0] == '+' {
                t.drop_first()
            } else {
                t
            }),
            acc <= 65535,
            acc == digits_value(d.take(k - start)),
            all_ascii_digits(d.take(k - start)),
        decreases to - k,
    {
        let c = cs[k];
        let u = c as u32;
        assert(d[k - start] == cs@[k as int]);
        if !(48 <= u && u <= 57) {
            assert(!is_ascii_digit(d[k - start]));
            assert(!all_ascii_digits(d));
            return None;
        }
        proof {
            lemma_digits_value_step(d, k - start);
        }
        let next = acc * 10 + (u - 48);
        assert(all_ascii_digits(d.take(k - start + 1))) by {
            assert forall|m: int| 0 <= m < k - start + 1 implies #[trigger] is_ascii_digit(
                d.take(k - start + 1)[m],
            ) by {
                if m < k - start {
                    assert(d.take(k - start + 1)[m] == d.take(k - start)[m]);
                }
            }
        }
        if next > 65535 {
            proof {
                if all_ascii_digits(d) {
                    lemma_digits_value_prefix(d, k - start + 1);
                }
            }
            return None;
        }
        acc = next;
        k = k + 1;
    }
    assert(d.take(d.len() as int) =~= d);
    Some(acc as u16)
}

/// The text of each range of `cs`.
pub open spec fn ranges_text(cs: Seq<char>, bounds: Seq<(usize, usize)>) -> Seq<Seq<char>> {
    bounds.map_values(|b: (usize, usize)| cs.subrange(b.0 as int, b.1 as int))
}

/// The ranges of `cs` that hold its lines.
pub fn line_bounds(cs: &Vec<char>) -> (r: Vec<(usize, usize)>)
    ensures
        ranges_text(cs@, r@) == lines_of(cs@),
        forall|i: int| 0 <= i < r@.len() ==> (#[trigger] r@[i]).0 <= r@[i].1 <= cs@.len(),
{
    let n = cs.len();
    let mut newline: Vec<char> = Vec::new();
    newline.push('\n');
    assert(newline@ =~= seq!['\n']);
    let mut r: Vec<(usize, usize)> = Vec::new();
    let mut pos: usize = 0;
    assert(cs@.skip(0) =~= cs@);
    while pos < n
        invariant
            n == cs@.len(),
            pos <= n,
            newline@ == seq!['\n'],
            lines_of(cs@) == ranges_text(cs@, r@) + lines_of(cs@.skip(pos as int)),
            forall|i: int| 0 <= i < r@.len() ==> (#[trigger] r@[i]).0 <= r@[i].1 <= cs@.len(),
        decreases n - pos,
    {
        let ghost sub = cs@.skip(pos as int);
        assert(sub =~= cs@.subrange(pos as int, n as int));
        let found = find_in_range(cs, pos, n, &newline);
        let ghost old_r = r@;
        match found {
            Some(j) => {
                proof {
                    lemma_find_seq(sub, seq!['\n']);
                    assert(sub.skip(j - pos + 1) =~= cs@.skip(j + 1));
                }
                let end = if j > pos && cs[j - 1] == '\r' {
                    j - 1
                } else {
                    j
                };
                assert(cs@.subrange(pos as int, end as int) =~= strip_carriage_return(
                    sub.take(j - pos),
                ));
                r.push((pos, end));
                assert(ranges_text(cs@, r@) =~= ranges_text(cs@, old_r) + seq![
                    strip_carriage_return(sub.take(j - pos)),
                ]);
                pos = j + 1;
            },
            None => {
                r.push((pos, n));
                assert(ranges_text(cs@, r@) =~= ranges_text(cs@, old_r) + seq![sub]);
                pos = n;
                assert(cs@.skip(pos as int) =~= Seq::<char>::empty());
            },
        }
    }
    assert(cs@.skip(pos as int) =~= Seq::<char>::empty());
    assert(lines_of(cs@) =~= ranges_text(cs@, r@));
    r
}

} // verus!
