//! Text as sequences of characters: the cutting, joining and number formats
//! that the rest of the library is built on.

use vstd::prelude::*;

verus! {

/// The texts that a sequence of strings holds.
pub open spec fn texts(v: Seq<String>) -> Seq<Seq<char>> {
    Seq::new(v.len(), |i: int| v[i]@)
}

/// The characters of `s`, one by one.
pub fn to_chars(s: &str) -> (v: Vec<char>)
    ensures
        v@ == s@,
{
    let mut v: Vec<char> = Vec::new();
    for c in it: s.chars()
        invariant
            it.seq() == s@,
            v@ == s@.take(it.index()),
    {
        v.push(c);
        assert(s@.take(it.index() + 1) =~= s@.take(it.index()).push(c));
    }
    assert(s@.take(s@.len() as int) =~= s@);
    v
}

/// `a` followed by `b`.
pub fn concat2(a: &str, b: &str) -> (r: String)
    ensures
        r@ == a@ + b@,
{
    let mut r = a.to_owned();
    r.append(b);
    r
}

/// `a`, `b` and `c` in a row.
pub fn concat3(a: &str, b: &str, c: &str) -> (r: String)
    ensures
        r@ == a@ + b@ + c@,
{
    let mut r = concat2(a, b);
    r.append(c);
    r
}

/// The parts with `sep` between each two of them.
pub open spec fn joined(parts: Seq<Seq<char>>, sep: Seq<char>) -> Seq<char>
    decreases parts.len(),
{
    if parts.len() == 0 {
        Seq::empty()
    } else if parts.len() == 1 {
        parts[0]
    } else {
        joined(parts.drop_last(), sep) + sep + parts.last()
    }
}

/// The parts with `sep` between each two of them.
pub fn join(parts: &[String], sep: &str) -> (r: String)
    ensures
        r@ == joined(texts(parts@), sep@),
{
    let mut r = String::new();
    let mut i: usize = 0;
    assert(texts(parts@).take(0) =~= Seq::empty());
    while i < parts.len()
        invariant
            i <= parts.len(),
            r@ == joined(texts(parts@).take(i as int), sep@),
        decreases parts.len() - i,
    {
        let ghost upto = texts(parts@).take(i + 1);
        assert(upto.drop_last() =~= texts(parts@).take(i as int));
        assert(upto.last() == parts@[i as int]@);
        if i > 0 {
            r.append(sep);
        }
        r.append(parts[i].as_str());
        i = i + 1;
    }
    assert(texts(parts@).take(parts@.len() as int) =~= texts(parts@));
    r
}

/// Whether two texts are the same.
pub fn same_text(a: &str, b: &str) -> (r: bool)
    ensures
        r == (a@ == b@),
{
    let x = a.to_owned();
    let y = b.to_owned();
    x == y
}

/// `s` begins with `prefix`.
pub open spec fn begins_with(s: Seq<char>, prefix: Seq<char>) -> bool {
    prefix.len() <= s.len() && s.take(prefix.len() as int) == prefix
}

/// `s` ends with `suffix`.
pub open spec fn finishes_with(s: Seq<char>, suffix: Seq<char>) -> bool {
    suffix.len() <= s.len() && s.skip(s.len() - suffix.len()) == suffix
}

/// Whether `s` begins with `prefix`.
pub fn starts_with(s: &str, prefix: &str) -> (r: bool)
    ensures
        r == begins_with(s@, prefix@),
{
    let n: usize = s.unicode_len();
    let m: usize = prefix.unicode_len();
    m <= n && same_text(s.substring_char(0, m), prefix)
}

/// Whether `s` ends with `suffix`.
pub fn ends_with(s: &str, suffix: &str) -> (r: bool)
    ensures
        r == finishes_with(s@, suffix@),
{
    let n: usize = s.unicode_len();
    let m: usize = suffix.unicode_len();
    m <= n && same_text(s.substring_char(n - m, n), suffix)
}

/// What follows the first `k` characters.
pub fn skip_chars(s: &str, k: usize) -> (r: String)
    requires
        k <= s@.len(),
    ensures
        r@ == s@.skip(k as int),
{
    let n: usize = s.unicode_len();
    s.substring_char(k, n).to_owned()
}

/// `s` without the characters of `class` at its beginning.
pub open spec fn without_leading(s: Seq<char>, class: Set<char>) -> Seq<char>
    decreases s.len(),
{
    if s.len() > 0 && class.contains(s[0]) {
        without_leading(s.drop_first(), class)
    } else {
        s
    }
}

/// `s` without the characters of `class` at its end.
pub open spec fn without_trailing(s: Seq<char>, class: Set<char>) -> Seq<char>
    decreases s.len(),
{
    if s.len() > 0 && class.contains(s.last()) {
        without_trailing(s.drop_last(), class)
    } else {
        s
    }
}

/// `s` without the characters of `class` at either end.
pub open spec fn trimmed(s: Seq<char>, class: Set<char>) -> Seq<char> {
    without_trailing(without_leading(s, class), class)
}

/// The characters with the Unicode property `White_Space`.
pub open spec fn white_space() -> Set<char> {
    Set::new(
        |c: char|
            {
                ||| 0x9 <= c as int <= 0xd
                ||| c as int == 0x20
                ||| c as int == 0x85
                ||| c as int == 0xa0
                ||| c as int == 0x1680
                ||| 0x2000 <= c as int <= 0x200a
                ||| c as int == 0x2028
                ||| c as int == 0x2029
                ||| c as int == 0x202f
                ||| c as int == 0x205f
                ||| c as int == 0x3000
            },
    )
}

/// Whether `c` is white space.
pub fn is_white_space(c: char) -> (r: bool)
    ensures
        r == white_space().contains(c),
{
    let n: u32 = c as u32;
    (0x9 <= n && n <= 0xd) || n == 0x20 || n == 0x85 || n == 0xa0 || n == 0x1680 || (0x2000 <= n
        && n <= 0x200a) || n == 0x2028 || n == 0x2029 || n == 0x202f || n == 0x205f || n == 0x3000
}

/// `s` without white space at either end.
pub fn trim(s: &str) -> (r: String)
    ensures
        r@ == trimmed(s@, white_space()),
{
    let v = to_chars(s);
    let mut i: usize = 0;
    assert(v@.skip(0) =~= v@);
    while i < v.len() && is_white_space(v[i])
        invariant
            i <= v.len(),
            without_leading(v@, white_space()) == without_leading(v@.skip(i as int), white_space()),
        ensures
            i <= v.len(),
            without_leading(v@, white_space()) == v@.skip(i as int),
        decreases v.len() - i,
    {
        assert(v@.skip(i as int).drop_first() =~= v@.skip(i + 1));
        i = i + 1;
    }
    let ghost rest = v@.skip(i as int);
    let mut j: usize = v.len();
    assert(v@.subrange(i as int, j as int) =~= rest);
    while i < j && is_white_space(v[j - 1])
        invariant
            i <= j <= v.len(),
            without_trailing(rest, white_space()) == without_trailing(
                v@.subrange(i as int, j as int),
                white_space(),
            ),
        ensures
            i <= j <= v.len(),
            without_trailing(rest, white_space()) == v@.subrange(i as int, j as int),
        decreases j,
    {
        assert(v@.subrange(i as int, j as int).drop_last() =~= v@.subrange(i as int, j - 1));
        j = j - 1;
    }
    s.substring_char(i, j).to_owned()
}

/// Trimming does not change a text that neither begins nor ends with what is
/// trimmed.
pub proof fn trimmed_is_same(s: Seq<char>, class: Set<char>)
    requires
        s.len() > 0,
        !class.contains(s[0]),
        !class.contains(s.last()),
    ensures
        trimmed(s, class) == s,
{
}

/// `s` without leading characters `c`.
pub fn trim_start_char(s: &str, c: char) -> (r: String)
    ensures
        r@ == without_leading(s@, set![c]),
{
    let v = to_chars(s);
    let mut i: usize = 0;
    assert(v@.skip(0) =~= v@);
    while i < v.len() && v[i] == c
        invariant
            i <= v.len(),
            without_leading(v@, set![c]) == without_leading(v@.skip(i as int), set![c]),
        ensures
            i <= v.len(),
            without_leading(v@, set![c]) == v@.skip(i as int),
        decreases v.len() - i,
    {
        assert(v@.skip(i as int).drop_first() =~= v@.skip(i + 1));
        i = i + 1;
    }
    skip_chars(s, i)
}

/// `s` without trailing characters `c`.
pub fn trim_end_char(s: &str, c: char) -> (r: String)
    ensures
        r@ == without_trailing(s@, set![c]),
{
    let v = to_chars(s);
    let mut j: usize = v.len();
    assert(v@.take(j as int) =~= v@);
    while 0 < j && v[j - 1] == c
        invariant
            j <= v.len(),
            without_trailing(v@, set![c]) == without_trailing(v@.take(j as int), set![c]),
        ensures
            j <= v.len(),
            without_trailing(v@, set![c]) == v@.take(j as int),
        decreases j,
    {
        assert(v@.take(j as int).drop_last() =~= v@.take(j - 1));
        j = j - 1;
    }
    s.substring_char(0, j).to_owned()
}

/// The parts of `s` between the characters `sep`; one more than there are of them.
pub open spec fn split_at(s: Seq<char>, sep: char) -> Seq<Seq<char>>
    decreases s.len(),
{
    if s.contains(sep) {
        let i = first_place(s, sep);
        if 0 <= i < s.len() {
            seq![s.take(i)] + split_at(s.skip(i + 1), sep)
        } else {
            seq![s]
        }
    } else {
        seq![s]
    }
}

/// The first place at which `c` stands in `s`.
pub open spec fn first_place(s: Seq<char>, c: char) -> int {
    choose|i: int| is_first_place(s, c, i)
}

/// `c` stands at `i` in `s` and nowhere before.
pub open spec fn is_first_place(s: Seq<char>, c: char, i: int) -> bool {
    &&& 0 <= i < s.len()
    &&& s[i] == c
    &&& forall|j: int| 0 <= j < i ==> s[j] != c
}

/// There is only one first place.
pub proof fn first_place_is(s: Seq<char>, c: char, i: int)
    requires
        is_first_place(s, c, i),
    ensures
        first_place(s, c) == i,
        s.contains(c),
{
    let k = first_place(s, c);
    assert(is_first_place(s, c, k));
    if k < i {
        assert(s[k] != c);
    } else if i < k {
        assert(s[i] != c);
    }
}

/// The parts of `s` between the characters `sep`.
pub fn split(s: &str, sep: char) -> (r: Vec<String>)
    ensures
        texts(r@) == split_at(s@, sep),
{
    let v = to_chars(s);
    let mut parts: Vec<String> = Vec::new();
    let mut start: usize = 0;
    let mut i: usize = 0;
    assert(v@.skip(0) =~= v@);
    assert(texts(parts@) + split_at(v@, sep) =~= split_at(v@, sep));
    while i < v.len()
        invariant
            v@ == s@,
            start <= i <= v.len(),
            forall|k: int| start <= k < i ==> v@[k] != sep,
            texts(parts@) + split_at(v@.skip(start as int), sep) == split_at(v@, sep),
        decreases v.len() - i,
    {
        if v[i] == sep {
            let ghost rest = v@.skip(start as int);
            let ghost before = texts(parts@);
            proof {
                assert(is_first_place(rest, sep, i - start));
                first_place_is(rest, sep, i - start);
                assert(rest.take(i - start) =~= v@.subrange(start as int, i as int));
                assert(rest.skip(i - start + 1) =~= v@.skip(i + 1));
            }
            parts.push(s.substring_char(start, i).to_owned());
            proof {
                assert(texts(parts@) =~= before.push(v@.subrange(start as int, i as int)));
                assert(texts(parts@) + split_at(v@.skip(i + 1), sep) =~= before + split_at(rest, sep));
            }
            start = i + 1;
        }
        i = i + 1;
    }
    let ghost before = texts(parts@);
    proof {
        let rest = v@.skip(start as int);
        assert(!rest.contains(sep)) by {
            if rest.contains(sep) {
                let k = choose|k: int| 0 <= k < rest.len() && rest[k] == sep;
                assert(v@[start + k] == sep);
            }
        }
    }
    parts.push(skip_chars(s, start));
    assert(texts(parts@) =~= before + seq![v@.skip(start as int)]);
    parts
}

/// A line without the carriage return before its end.
pub open spec fn without_return(line: Seq<char>) -> Seq<char> {
    if line.len() > 0 && line.last() == '\r' {
        line.drop_last()
    } else {
        line
    }
}

/// The lines of `s`: each ends with a line feed, alone or after a carriage return,
/// or with the text.
pub open spec fn lines_of(s: Seq<char>) -> Seq<Seq<char>>
    decreases s.len(),
{
    if s.len() == 0 {
        Seq::empty()
    } else if s.contains('\n') {
        let i = first_place(s, '\n');
        if 0 <= i < s.len() {
            seq![without_return(s.take(i))] + lines_of(s.skip(i + 1))
        } else {
            seq![s]
        }
    } else {
        seq![s]
    }
}

/// The lines of `s`.
pub fn lines(s: &str) -> (r: Vec<String>)
    ensures
        texts(r@) == lines_of(s@),
{
    let v = to_chars(s);
    let mut parts: Vec<String> = Vec::new();
    let mut start: usize = 0;
    let mut i: usize = 0;
    assert(v@.skip(0) =~= v@);
    assert(texts(parts@) + lines_of(v@) =~= lines_of(v@));
    while i < v.len()
        invariant
            v@ == s@,
            start <= i <= v.len(),
            forall|k: int| start <= k < i ==> v@[k] != '\n',
            texts(parts@) + lines_of(v@.skip(start as int)) == lines_of(v@),
        decreases v.len() - i,
    {
        if v[i] == '\n' {
            let ghost rest = v@.skip(start as int);
            let ghost before = texts(parts@);
            let ghost line = v@.subrange(start as int, i as int);
            let end: usize = if start < i && v[i - 1] == '\r' {
                i - 1
            } else {
                i
            };
            proof {
                assert(is_first_place(rest, '\n', i - start));
                first_place_is(rest, '\n', i - start);
                assert(rest.take(i - start) =~= line);
                assert(rest.skip(i - start + 1) =~= v@.skip(i + 1));
                assert(v@.subrange(start as int, end as int) =~= without_return(line));
            }
            parts.push(s.substring_char(start, end).to_owned());
            proof {
                assert(texts(parts@) =~= before.push(without_return(line)));
                assert(texts(parts@) + lines_of(v@.skip(i + 1)) =~= before + lines_of(rest));
            }
            start = i + 1;
        }
        i = i + 1;
    }
    let ghost before = texts(parts@);
    let ghost rest = v@.skip(start as int);
    proof {
        assert(!rest.contains('\n')) by {
            if rest.contains('\n') {
                let k = choose|k: int| 0 <= k < rest.len() && rest[k] == '\n';
                assert(v@[start + k] == '\n');
            }
        }
    }
    if start < v.len() {
        parts.push(skip_chars(s, start));
        assert(texts(parts@) =~= before + seq![rest]);
    } else {
        assert(before + Seq::<Seq<char>>::empty() =~= before);
    }
    parts
}

/// `s` with `by` in place of each `pattern`, from the beginning on.
pub open spec fn replaced(s: Seq<char>, pattern: Seq<char>, by: Seq<char>) -> Seq<char>
    decreases s.len(),
{
    if pattern.len() == 0 || s.len() < pattern.len() {
        s
    } else if begins_with(s, pattern) {
        by + replaced(s.skip(pattern.len() as int), pattern, by)
    } else {
        seq![s[0]] + replaced(s.skip(1), pattern, by)
    }
}

/// `s` with `by` in place of each `pattern`, from the beginning on.
pub fn replace(s: &str, pattern: &str, by: &str) -> (r: String)
    requires
        pattern@.len() > 0,
    ensures
        r@ == replaced(s@, pattern@, by@),
{
    let n: usize = s.unicode_len();
    let v = to_chars(s);
    let p = to_chars(pattern);
    let m: usize = p.len();
    let mut r = String::new();
    let mut start: usize = 0;
    let mut i: usize = 0;
    assert(v@.skip(0) =~= v@);
    assert(r@ + v@.subrange(0, 0) + replaced(v@, p@, by@) =~= replaced(v@, p@, by@));
    while m <= n - i
        invariant
            v@ == s@,
            p@ == pattern@,
            n == v@.len(),
            m == p@.len(),
            m > 0,
            start <= i <= n,
            r@ + v@.subrange(start as int, i as int) + replaced(v@.skip(i as int), p@, by@)
                == replaced(v@, p@, by@),
        decreases n - i,
    {
        let ghost rest = v@.skip(i as int);
        let mut k: usize = 0;
        while k < m && v[i + k] == p[k]
            invariant
                v@.len() == n,
                p@.len() == m,
                m <= n - i,
                i <= n,
                k <= m,
                forall|j: int| 0 <= j < k ==> v@[i + j] == p@[j],
            ensures
                k <= m,
                forall|j: int| 0 <= j < k ==> v@[i + j] == p@[j],
                k < m ==> v@[i + k] != p@[k as int],
            decreases m - k,
        {
            k = k + 1;
        }
        if k == m {
            assert(rest.take(m as int) =~= p@);
            assert(rest.skip(m as int) =~= v@.skip(i + m));
            let ghost before = r@;
            let ghost copied = v@.subrange(start as int, i as int);
            let ghost tail = replaced(v@.skip(i + m), p@, by@);
            r.append(s.substring_char(start, i));
            r.append(by);
            i = i + m;
            start = i;
            assert(r@ + v@.subrange(start as int, i as int) + tail =~= before + copied + (by@ + tail));
        } else {
            assert(rest.take(m as int)[k as int] != p@[k as int]);
            assert(rest.skip(1) =~= v@.skip(i + 1));
            let ghost copied = v@.subrange(start as int, i as int);
            let ghost tail = replaced(v@.skip(i + 1), p@, by@);
            assert(v@.subrange(start as int, i + 1) =~= copied.push(v@[i as int]));
            assert(r@ + v@.subrange(start as int, i + 1) + tail =~= r@ + copied + (seq![v@[i as int]]
                + tail));
            i = i + 1;
        }
    }
    r.append(s.substring_char(start, n));
    assert(r@ =~= replaced(v@, p@, by@)) by {
        assert(v@.subrange(start as int, n as int) =~= v@.subrange(start as int, i as int) + v@.skip(
            i as int,
        ));
    }
    r
}

/// What `str::to_uppercase` makes of a text.
pub uninterp spec fn uppercase(s: Seq<char>) -> Seq<char>;

/// The upper-case form of an ASCII character.
pub open spec fn ascii_upper(c: char) -> char {
    if 0x61 <= c as int <= 0x7a {
        (c as int - 0x20) as char
    } else {
        c
    }
}

/// Calls `str::to_uppercase`. Its result depends on the text alone; in a text of
/// ASCII characters the letters from `a` to `z` become those from `A` to `Z` and
/// nothing else changes.
#[verifier::external_body]
pub(crate) fn to_uppercase(s: &str) -> (r: String)
    ensures
        r@ == uppercase(s@),
        (forall|i: int| 0 <= i < s@.len() ==> (#[trigger] s@[i] as int) < 0x80) ==> r@ == Seq::new(
            s@.len(),
            |i: int| ascii_upper(s@[i]),
        ),
{
    s.to_uppercase()
}

/// The texts of a sequence of pairs of strings.
pub open spec fn pairs(v: Seq<(String, String)>) -> Seq<(Seq<char>, Seq<char>)> {
    Seq::new(v.len(), |i: int| (v[i].0@, v[i].1@))
}

/// `true` or `false`.
pub open spec fn flag(b: bool) -> Seq<char> {
    if b {
        "true"@
    } else {
        "false"@
    }
}

} // verus!
