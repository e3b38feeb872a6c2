//! Character-level text handling: whitespace trimming, line-wise scanning of
//! command output, decimal rendering of exit codes, and `${name}` argument
//! substitution.
use crate::strmap::StrMap;
use vstd::prelude::*;

verus! {

/// Characters with the Unicode `White_Space` property, the set that
/// `char::is_whitespace` and `str::trim` use.
pub open spec fn is_whitespace(c: char) -> bool {
    let u = c as u32;
    (0x09 <= u <= 0x0d) || u == 0x20 || u == 0x85 || u == 0xa0 || u == 0x1680 || (0x2000 <= u
        <= 0x200a) || u == 0x2028 || u == 0x2029 || u == 0x202f || u == 0x205f || u == 0x3000
}

/// `s` without its leading whitespace.
pub open spec fn strip_leading(s: Seq<char>) -> Seq<char>
    decreases s.len(),
{
    if s.len() > 0 && is_whitespace(s[0]) {
        strip_leading(s.drop_first())
    } else {
        s
    }
}

/// `s` without its trailing whitespace.
pub open spec fn strip_trailing(s: Seq<char>) -> Seq<char>
    decreases s.len(),
{
    if s.len() > 0 && is_whitespace(s.last()) {
        strip_trailing(s.drop_last())
    } else {
        s
    }
}

/// `s` without leading and trailing whitespace, as `str::trim` gives it.
pub open spec fn trim(s: Seq<char>) -> Seq<char> {
    strip_trailing(strip_leading(s))
}

/// Index of the first occurrence of `c` in `s`, or -1 where there is none.
pub open spec fn first_index(s: Seq<char>, c: char) -> int
    decreases s.len(),
{
    if s.len() == 0 {
        -1
    } else if s[0] == c {
        0
    } else {
        let r = first_index(s.drop_first(), c);
        if r < 0 {
            -1
        } else {
            r + 1
        }
    }
}

pub fn is_whitespace_char(c: char) -> (r: bool)
    ensures
        r == is_whitespace(c),
{
    let u = c as u32;
    (0x09 <= u && u <= 0x0d) || u == 0x20 || u == 0x85 || u == 0xa0 || u == 0x1680 || (0x2000
        <= u && u <= 0x200a) || u == 0x2028 || u == 0x2029 || u == 0x202f || u == 0x205f || u
        == 0x3000
}

pub proof fn lemma_first_index_bounds(s: Seq<char>, c: char)
    ensures
        -1 <= first_index(s, c) < s.len(),
        first_index(s, c) >= 0 ==> s[first_index(s, c)] == c,
        forall|j: int| 0 <= j < first_index(s, c) ==> s[j] != c,
        first_index(s, c) < 0 ==> !s.contains(c),
    decreases s.len(),
{
    if s.len() > 0 && s[0] != c {
        lemma_first_index_bounds(s.drop_first(), c);
        let r = first_index(s.drop_first(), c);
        assert forall|j: int| 0 <= j < first_index(s, c) implies s[j] != c by {
            if j > 0 {
                assert(s[j] == s.drop_first()[j - 1]);
            }
        }
        if r < 0 {
            assert forall|j: int| 0 <= j < s.len() implies s[j] != c by {
                if j > 0 {
                    assert(s[j] == s.drop_first()[j - 1]);
                }
            }
        }
    }
}

proof fn lemma_first_index_at(s: Seq<char>, c: char, k: int)
    requires
        0 <= k < s.len(),
        s[k] == c,
        forall|j: int| 0 <= j < k ==> s[j] != c,
    ensures
        first_index(s, c) == k,
    decreases k,
{
    if k > 0 {
        lemma_first_index_at(s.drop_first(), c, k - 1);
    }
}

proof fn lemma_first_index_none(s: Seq<char>, c: char)
    requires
        forall|j: int| 0 <= j < s.len() ==> s[j] != c,
    ensures
        first_index(s, c) == -1,
    decreases s.len(),
{
    if s.len() > 0 {
        lemma_first_index_none(s.drop_first(), c);
    }
}

proof fn lemma_strip_leading(s: Seq<char>, k: int)
    requires
        0 <= k <= s.len(),
        forall|j: int| 0 <= j < k ==> is_whitespace(#[trigger] s[j]),
        k == s.len() || !is_whitespace(s[k]),
    ensures
        strip_leading(s) == s.skip(k),
    decreases k,
{
    if k == 0 {
        assert(s.skip(0) =~= s);
    } else {
        let t = s.drop_first();
        assert forall|j: int| 0 <= j < k - 1 implies is_whitespace(#[trigger] t[j]) by {
            assert(t[j] == s[j + 1]);
        }
        lemma_strip_leading(t, k - 1);
        assert(t.skip(k - 1) =~= s.skip(k));
    }
}

proof fn lemma_strip_trailing(s: Seq<char>, k: int)
    requires
        0 <= k <= s.len(),
        forall|j: int| k <= j < s.len() ==> is_whitespace(#[trigger] s[j]),
        k == 0 || !is_whitespace(s[k - 1]),
    ensures
        strip_trailing(s) == s.take(k),
    decreases s.len() - k,
{
    if k == s.len() {
        assert(s.take(k) =~= s);
    } else {
        let t = s.drop_last();
        assert forall|j: int| k <= j < t.len() implies is_whitespace(#[trigger] t[j]) by {
            assert(t[j] == s[j]);
        }
        lemma_strip_trailing(t, k);
        assert(t.take(k) =~= s.take(k));
    }
}

/// Bounds of the trimmed part of `v[lo..hi]`.
pub fn trim_bounds(v: &Vec<char>, lo: usize, hi: usize) -> (r: (usize, usize))
    requires
        lo <= hi <= v@.len(),
    ensures
        lo <= r.0 <= r.1 <= hi,
        v@.subrange(r.0 as int, r.1 as int) == trim(v@.subrange(lo as int, hi as int)),
{
    let mut a = lo;
    while a < hi && is_whitespace_char(v[a])
        invariant
            lo <= a <= hi <= v@.len(),
            forall|j: int| lo <= j < a ==> is_whitespace(#[trigger] v@[j]),
        decreases hi - a,
    {
        a = a + 1;
    }
    let mut b = hi;
    while b > a && is_whitespace_char(v[b - 1])
        invariant
            lo <= a <= b <= hi <= v@.len(),
            forall|j: int| b <= j < hi ==> is_whitespace(#[trigger] v@[j]),
        decreases b - a,
    {
        b = b - 1;
    }
    proof {
        let s = v@.subrange(lo as int, hi as int);
        assert forall|j: int| 0 <= j < a - lo implies is_whitespace(#[trigger] s[j]) by {
            assert(s[j] == v@[lo + j]);
        }
        lemma_strip_leading(s, a - lo);
        let t = s.skip(a - lo);
        assert(t =~= v@.subrange(a as int, hi as int));
        assert forall|j: int| b - a <= j < t.len() implies is_whitespace(#[trigger] t[j]) by {
            assert(t[j] == v@[a + j]);
        }
        lemma_strip_trailing(t, b - a);
        assert(t.take(b - a) =~= v@.subrange(a as int, b as int));
    }
    (a, b)
}

/// Index of the first `c` in `v[lo..hi]`, or `hi` where there is none.
pub fn find_char(v: &Vec<char>, lo: usize, hi: usize, c: char) -> (r: usize)
    requires
        lo <= hi <= v@.len(),
    ensures
        lo <= r <= hi,
        forall|j: int| lo <= j < r ==> v@[j] != c,
        r < hi ==> v@[r as int] == c,
        r < hi ==> first_index(v@.subrange(lo as int, hi as int), c) == r - lo,
        r == hi ==> first_index(v@.subrange(lo as int, hi as int), c) == -1,
        r == hi <==> !v@.subrange(lo as int, hi as int).contains(c),
{
    let mut i = lo;
    while i < hi && v[i] != c
        invariant
            lo <= i <= hi <= v@.len(),
            forall|j: int| lo <= j < i ==> v@[j] != c,
        decreases hi - i,
    {
        i = i + 1;
    }
    proof {
        let s = v@.subrange(lo as int, hi as int);
        if i < hi {
            lemma_first_index_at(s, c, i - lo);
            assert(s[i - lo] == c);
        } else {
            assert forall|j: int| 0 <= j < s.len() implies s[j] != c by {
                assert(s[j] == v@[lo + j]);
            }
            lemma_first_index_none(s, c);
        }
    }
    i
}


/// The characters of a string, in order.
pub fn chars_of(s: &str) -> (v: Vec<char>)
    ensures
        v@ == s@,
{
    let mut v: Vec<char> = Vec::new();
    for c in it: s.chars()
        invariant
            v@ == it.seq().take(it.index() as int),
    {
        v.push(c);
    }
    v
}

/// The characters of each string.
pub open spec fn strings_view(v: Seq<String>) -> Seq<Seq<char>> {
    v.map_values(|s: String| s@)
}

/// A map to strings, each value taken by its characters.
pub open spec fn string_map_view(m: Map<Seq<char>, String>) -> Map<Seq<char>, Seq<char>> {
    m.map_values(|s: String| s@)
}

pub proof fn lemma_string_map_view_insert(m: Map<Seq<char>, String>, k: Seq<char>, v: String)
    ensures
        string_map_view(m.insert(k, v)) == string_map_view(m).insert(k, v@),
{
    assert(string_map_view(m.insert(k, v)) =~= string_map_view(m).insert(k, v@));
}

/// The prefix that marks a line of command output as a variable assignment.
pub open spec fn var_prefix() -> Seq<char> {
    seq!['V', 'A', 'R', ':']
}

/// The part of a trimmed output line that holds an assignment, if the line is
/// one: what follows `VAR:`, or the whole line where it holds `=` and no space
/// comes before its first `=` (a space there marks log output).
pub open spec fn assignment_part(t: Seq<char>) -> Option<Seq<char>> {
    if t.len() >= 4 && t.take(4) == var_prefix() {
        Some(t.skip(4))
    } else if t.contains('=') && !t.take(first_index(t, '=')).contains(' ') {
        Some(t)
    } else {
        None
    }
}

/// The variable that one line of command output sets: the trimmed text before
/// the first `=` and the trimmed text after it, where the name is not empty.
pub open spec fn parse_line(line: Seq<char>) -> Option<(Seq<char>, Seq<char>)> {
    match assignment_part(trim(line)) {
        Some(v) => {
            let e = first_index(v, '=');
            if e >= 0 && trim(v.take(e)).len() > 0 {
                Some((trim(v.take(e)), trim(v.skip(e + 1))))
            } else {
                None
            }
        },
        None => None,
    }
}

/// `m` after the assignment that `line` makes, if it makes one.
pub open spec fn absorb_line(m: Map<Seq<char>, Seq<char>>, line: Seq<char>) -> Map<
    Seq<char>,
    Seq<char>,
> {
    match parse_line(line) {
        Some(kv) => m.insert(kv.0, kv.1),
        None => m,
    }
}

/// `m` after the assignments of every line of `s`, in order; lines are the
/// pieces between `\n` characters. (A blank piece, such as the one after a
/// final `\n`, assigns nothing, so this agrees with `str::lines`.)
pub open spec fn absorb_output(m: Map<Seq<char>, Seq<char>>, s: Seq<char>) -> Map<
    Seq<char>,
    Seq<char>,
>
    decreases s.len(),
{
    let j = first_index(s, '\n');
    if j < 0 {
        absorb_line(m, s)
    } else {
        proof {
            lemma_first_index_bounds(s, '\n');
        }
        absorb_output(absorb_line(m, s.take(j)), s.skip(j + 1))
    }
}

/// Whether `v[lo..hi]` holds `c`.
fn contains_char(v: &Vec<char>, lo: usize, hi: usize, c: char) -> (r: bool)
    requires
        lo <= hi <= v@.len(),
    ensures
        r == v@.subrange(lo as int, hi as int).contains(c),
{
    find_char(v, lo, hi, c) < hi
}

/// Applies the assignment of the line `chars[lo..hi]` of `out` to `vars`.
fn absorb_line_exec(out: &str, chars: &Vec<char>, lo: usize, hi: usize, vars: &mut StrMap<String>)
    requires
        chars@ == out@,
        lo <= hi <= chars@.len(),
    ensures
        string_map_view(final(vars)@) == absorb_line(
            string_map_view(old(vars)@),
            chars@.subrange(lo as int, hi as int),
        ),
{
    let ghost line = chars@.subrange(lo as int, hi as int);
    let (ta, tb) = trim_bounds(chars, lo, hi);
    let ghost t = chars@.subrange(ta as int, tb as int);
    assert(t == trim(line));
    let start: usize;
    if tb - ta >= 4 && chars[ta] == 'V' && chars[ta + 1] == 'A' && chars[ta + 2] == 'R'
        && chars[ta + 3] == ':' {
        assert(t.take(4) =~= var_prefix());
        assert(t.skip(4) =~= chars@.subrange(ta + 4, tb as int));
        start = ta + 4;
    } else {
        assert(!(t.len() >= 4 && t.take(4) == var_prefix())) by {
            if t.len() >= 4 && t.take(4) == var_prefix() {
                assert(t.take(4)[0] == t[0] && t.take(4)[1] == t[1] && t.take(4)[2] == t[2]
                    && t.take(4)[3] == t[3]);
            }
        }
        let eq = find_char(chars, ta, tb, '=');
        if eq == tb {
            return;
        }
        assert(t.take(eq - ta) =~= chars@.subrange(ta as int, eq as int));
        if contains_char(chars, ta, eq, ' ') {
            return;
        }
        start = ta;
    }
    let ghost v = chars@.subrange(start as int, tb as int);
    assert(assignment_part(t) == Some(v));
    let e = find_char(chars, start, tb, '=');
    if e == tb {
        return;
    }
    let (ka, kb) = trim_bounds(chars, start, e);
    assert(v.take(e - start) =~= chars@.subrange(start as int, e as int));
    if ka == kb {
        return;
    }
    let (va, vb) = trim_bounds(chars, e + 1, tb);
    assert(v.skip(e - start + 1) =~= chars@.subrange(e + 1, tb as int));
    let key = String::from_str(out.substring_char(ka, kb));
    let value = String::from_str(out.substring_char(va, vb));
    proof {
        lemma_string_map_view_insert(vars@, key@, value);
    }
    vars.insert(key, value);
}

/// Applies, line by line, the assignments that command output `out` makes.
pub fn absorb_output_exec(out: &str, vars: &mut StrMap<String>)
    ensures
        string_map_view(final(vars)@) == absorb_output(string_map_view(old(vars)@), out@),
{
    let chars = chars_of(out);
    let n = chars.len();
    let mut i: usize = 0;
    assert(chars@.skip(0) =~= chars@);
    loop
        invariant
            chars@ == out@,
            n == chars@.len(),
            i <= n,
            absorb_output(string_map_view(vars@), chars@.skip(i as int)) == absorb_output(
                string_map_view(old(vars)@),
                out@,
            ),
        decreases n - i,
    {
        let j = find_char(&chars, i, n, '\n');
        let ghost rest = chars@.skip(i as int);
        assert(rest =~= chars@.subrange(i as int, n as int));
        assert(rest.take(j - i) =~= chars@.subrange(i as int, j as int));
        absorb_line_exec(out, &chars, i, j, vars);
        if j == n {
            return;
        }
        assert(rest.skip(j - i + 1) =~= chars@.skip(j + 1));
        i = j + 1;
    }
}


/// The decimal digit for `d` (0 to 9).
pub open spec fn digit_char(d: int) -> char {
    if d == 0 {
        '0'
    } else if d == 1 {
        '1'
    } else if d == 2 {
        '2'
    } else if d == 3 {
        '3'
    } else if d == 4 {
        '4'
    } else if d == 5 {
        '5'
    } else if d == 6 {
        '6'
    } else if d == 7 {
        '7'
    } else if d == 8 {
        '8'
    } else {
        '9'
    }
}

/// Decimal digits of `m`, most significant first, without leading zeros.
pub open spec fn decimal_digits(m: nat) -> Seq<char>
    decreases m,
{
    if m < 10 {
        seq![digit_char(m as int)]
    } else {
        decimal_digits(m / 10).push(digit_char((m % 10) as int))
    }
}

/// `n` written in decimal, with a leading `-` where it is negative, as
/// `i32::to_string` writes it.
pub open spec fn decimal(n: int) -> Seq<char> {
    if n < 0 {
        seq!['-'] + decimal_digits((-n) as nat)
    } else {
        decimal_digits(n as nat)
    }
}

fn digit_str(d: u64) -> (r: &'static str)
    requires
        d < 10,
    ensures
        r@ == seq![digit_char(d as int)],
{
    if d == 0 {
        proof { reveal_strlit("0"); }
        "0"
    } else if d == 1 {
        proof { reveal_strlit("1"); }
        "1"
    } else if d == 2 {
        proof { reveal_strlit("2"); }
        "2"
    } else if d == 3 {
        proof { reveal_strlit("3"); }
        "3"
    } else if d == 4 {
        proof { reveal_strlit("4"); }
        "4"
    } else if d == 5 {
        proof { reveal_strlit("5"); }
        "5"
    } else if d == 6 {
        proof { reveal_strlit("6"); }
        "6"
    } else if d == 7 {
        proof { reveal_strlit("7"); }
        "7"
    } else if d == 8 {
        proof { reveal_strlit("8"); }
        "8"
    } else {
        proof { reveal_strlit("9"); }
        "9"
    }
}

fn append_digits(s: &mut String, m: u64)
    ensures
        final(s)@ == old(s)@ + decimal_digits(m as nat),
    decreases m,
{
    if m >= 10 {
        append_digits(s, m / 10);
    }
    s.append(digit_str(m % 10));
    if m >= 10 {
        assert(final(s)@ =~= old(s)@ + decimal_digits(m as nat));
    } else {
        assert(final(s)@ =~= old(s)@ + decimal_digits(m as nat));
    }
}

/// `n` in decimal.
pub fn decimal_string(n: i32) -> (r: String)
    ensures
        r@ == decimal(n as int),
{
    let mut s = String::new();
    if n < 0 {
        proof { reveal_strlit("-"); }
        s.append("-");
        let m: i64 = -(n as i64);
        append_digits(&mut s, m as u64);
        assert(s@ =~= decimal(n as int));
    } else {
        append_digits(&mut s, n as u64);
        assert(s@ =~= decimal(n as int));
    }
    s
}

/// An argument after substitution: an argument of the form `${name}` stands
/// for the value of `name` in `vars` where there is one, and for itself where
/// there is none; any other argument stands for itself.
pub open spec fn substitute(arg: Seq<char>, vars: Map<Seq<char>, Seq<char>>) -> Seq<char> {
    if arg.len() >= 2 && arg[0] == '$' && arg[1] == '{' && arg.len() >= 1 && arg.last() == '}' {
        let name = arg.subrange(2, arg.len() - 1);
        if vars.contains_key(name) {
            vars[name]
        } else {
            arg
        }
    } else {
        arg
    }
}

/// `arg` with a `${name}` reference replaced by the value of `name` in `vars`.
pub fn substitute_exec(arg: &String, vars: &StrMap<String>) -> (r: String)
    ensures
        r@ == substitute(arg@, string_map_view(vars@)),
{
    let s = arg.as_str();
    let n = s.unicode_len();
    if n >= 2 && s.get_char(0) == '$' && s.get_char(1) == '{' && n >= 1 && s.get_char(n - 1)
        == '}' {
        let name = s.substring_char(2, n - 1);
        match vars.get(name) {
            Some(v) => v.clone(),
            None => arg.clone(),
        }
    } else {
        arg.clone()
    }
}


proof fn lemma_trim_of_untrimmed_ends(s: Seq<char>)
    requires
        s.len() == 0 || (!is_whitespace(s[0]) && !is_whitespace(s.last())),
    ensures
        trim(s) == s,
{
}

/// A line `VAR:name=value`, with a name that holds no `=` and neither name
/// nor value has whitespace at its ends, sets `name` to `value`.
pub proof fn law_var_line(name: Seq<char>, value: Seq<char>)
    requires
        name.len() > 0,
        !name.contains('='),
        trim(name) == name,
        trim(value) == value,
    ensures
        parse_line(var_prefix() + name + seq!['='] + value) == Some((name, value)),
{
    let line = var_prefix() + name + seq!['='] + value;
    assert(line[0] == 'V');
    if value.len() > 0 {
        lemma_trimmed_ends(value);
        assert(line.last() == value.last());
    } else {
        assert(line.last() == '=');
    }
    lemma_trim_of_untrimmed_ends(line);
    assert(line.take(4) =~= var_prefix());
    let v = line.skip(4);
    assert(v =~= name + seq!['='] + value);
    assert forall|j: int| 0 <= j < name.len() implies v[j] != '=' by {
        assert(v[j] == name[j]);
    }
    assert(v[name.len() as int] == '=');
    lemma_first_index_at(v, '=', name.len() as int);
    assert(v.take(name.len() as int) =~= name);
    assert(v.skip(name.len() as int + 1) =~= value);
}

proof fn lemma_strip_leading_shorter(s: Seq<char>)
    ensures
        strip_leading(s).len() <= s.len(),
    decreases s.len(),
{
    if s.len() > 0 && is_whitespace(s[0]) {
        lemma_strip_leading_shorter(s.drop_first());
    }
}

proof fn lemma_trimmed_ends(s: Seq<char>)
    requires
        trim(s) == s,
        s.len() > 0,
    ensures
        !is_whitespace(s[0]),
        !is_whitespace(s.last()),
{
    let a = strip_leading(s);
    lemma_strip_leading_shorter(s);
    lemma_strip_trailing_shorter(a);
    if is_whitespace(s[0]) {
        lemma_strip_leading_shorter(s.drop_first());
        assert(false);
    }
    assert(a == s);
    if is_whitespace(s.last()) {
        lemma_strip_trailing_shorter(s.drop_last());
        assert(false);
    }
}

proof fn lemma_strip_trailing_shorter(s: Seq<char>)
    ensures
        strip_trailing(s).len() <= s.len(),
    decreases s.len(),
{
    if s.len() > 0 && is_whitespace(s.last()) {
        lemma_strip_trailing_shorter(s.drop_last());
    }
}

/// A line that does not start with `VAR:` and holds no `=`, or holds a
/// space before its first `=`, is log output: it sets nothing.
pub proof fn law_log_line_sets_nothing(line: Seq<char>)
    requires
        !(trim(line).len() >= 4 && trim(line).take(4) == var_prefix()),
        !trim(line).contains('=') || trim(line).take(first_index(trim(line), '=')).contains(' '),
    ensures
        parse_line(line) is None,
{
}

/// A line `name=value` (not starting with `VAR:`), with a name that holds
/// neither `=` nor a space and with no whitespace at the ends of name and
/// value, sets `name` to `value`; the value may hold spaces.
pub proof fn law_plain_line(name: Seq<char>, value: Seq<char>)
    requires
        name.len() > 0,
        !name.contains('='),
        !name.contains(' '),
        !(name.len() >= 4 && name.take(4) == var_prefix()),
        trim(name) == name,
        trim(value) == value,
    ensures
        parse_line(name + seq!['='] + value) == Some((name, value)),
{
    let line = name + seq!['='] + value;
    lemma_trimmed_ends(name);
    assert(line[0] == name[0]);
    if value.len() > 0 {
        lemma_trimmed_ends(value);
        assert(line.last() == value.last());
    } else {
        assert(line.last() == '=');
    }
    lemma_trim_of_untrimmed_ends(line);
    if line.len() >= 4 && line.take(4) == var_prefix() {
        if name.len() >= 4 {
            assert(name.take(4) =~= line.take(4));
        } else {
            assert(line.take(4)[name.len() as int] == '=');
            assert(var_prefix()[name.len() as int] != '=');
        }
    }
    assert forall|j: int| 0 <= j < name.len() implies line[j] != '=' by {
        assert(line[j] == name[j]);
    }
    assert(line[name.len() as int] == '=');
    lemma_first_index_at(line, '=', name.len() as int);
    assert(line.take(name.len() as int) =~= name);
    assert(line.skip(name.len() as int + 1) =~= value);
    assert(line.contains('='));
}

/// An argument `${name}` stands for the value of `name` where the variables
/// have one, and for itself where they do not; an argument of another form
/// stands for itself.
pub proof fn law_substitute(name: Seq<char>, vars: Map<Seq<char>, Seq<char>>, other: Seq<char>)
    requires
        !(other.len() >= 2 && other[0] == '$' && other[1] == '{' && other.last() == '}'),
    ensures
        vars.contains_key(name) ==> substitute(seq!['$', '{'] + name + seq!['}'], vars) == vars[name],
        !vars.contains_key(name) ==> substitute(seq!['$', '{'] + name + seq!['}'], vars) == seq![
            '$',
            '{',
        ] + name + seq!['}'],
        substitute(other, vars) == other,
{
    let arg = seq!['$', '{'] + name + seq!['}'];
    assert(arg.subrange(2, arg.len() - 1) =~= name);
}


proof fn lemma_first_index_prefix(s1: Seq<char>, x: Seq<char>, c: char)
    requires
        first_index(s1, c) >= 0,
    ensures
        first_index(s1 + x, c) == first_index(s1, c),
{
    lemma_first_index_bounds(s1, c);
    let j = first_index(s1, c);
    let t = s1 + x;
    assert(t[j] == c);
    assert forall|i: int| 0 <= i < j implies t[i] != c by {
        assert(t[i] == s1[i]);
    }
    lemma_first_index_at(t, c, j);
}

/// Every line of the output is read, in order: the output `s1`, a line
/// break, then `s2` sets what `s1` sets and then what `s2` sets. So no line,
/// blank or not, stops the reading of the lines after it.
pub proof fn law_every_line_is_read(m: Map<Seq<char>, Seq<char>>, s1: Seq<char>, s2: Seq<char>)
    ensures
        absorb_output(m, s1 + seq!['\n'] + s2) == absorb_output(absorb_output(m, s1), s2),
    decreases s1.len(),
{
    let s = s1 + seq!['\n'] + s2;
    lemma_first_index_bounds(s1, '\n');
    let j1 = first_index(s1, '\n');
    if j1 < 0 {
        assert forall|i: int| 0 <= i < s1.len() implies s[i] != '\n' by {
            assert(s[i] == s1[i]);
            assert(s1.contains(s1[i]));
        }
        assert(s[s1.len() as int] == '\n');
        lemma_first_index_at(s, '\n', s1.len() as int);
        assert(s.take(s1.len() as int) =~= s1);
        assert(s.skip(s1.len() as int + 1) =~= s2);
    } else {
        lemma_first_index_prefix(s1, seq!['\n'] + s2, '\n');
        assert(s =~= s1 + (seq!['\n'] + s2));
        let rest = s1.skip(j1 + 1);
        assert(s.take(j1) =~= s1.take(j1));
        assert(s.skip(j1 + 1) =~= rest + seq!['\n'] + s2);
        law_every_line_is_read(absorb_line(m, s1.take(j1)), rest, s2);
    }
}

/// A blank line sets nothing.
pub proof fn law_blank_line_sets_nothing(m: Map<Seq<char>, Seq<char>>, line: Seq<char>)
    requires
        forall|i: int| 0 <= i < line.len() ==> is_whitespace(#[trigger] line[i]),
    ensures
        absorb_line(m, line) == m,
{
    lemma_strip_leading(line, line.len() as int);
    assert(line.skip(line.len() as int) =~= Seq::<char>::empty());
    assert(trim(line) =~= Seq::<char>::empty());
}

} // verus!
