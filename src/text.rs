//! Character-level helpers: whitespace trimming, splitting on a separator,
//! comment stripping, section headers and lenient scalar decoding.
use vstd::prelude::*;

verus! {

/// Unicode `White_Space`, the set that `str::trim` removes.
pub open spec fn is_space(c: char) -> bool {
    ('\u{9}' <= c && c <= '\u{d}') || c == ' ' || c == '\u{85}' || c == '\u{a0}' || c == '\u{1680}'
        || ('\u{2000}' <= c && c <= '\u{200a}') || c == '\u{2028}' || c == '\u{2029}'
        || c == '\u{202f}' || c == '\u{205f}' || c == '\u{3000}'
}

pub open spec fn trim_start(s: Seq<char>) -> Seq<char>
    decreases s.len(),
{
    if s.len() > 0 && is_space(s[0]) {
        trim_start(s.drop_first())
    } else {
        s
    }
}

pub open spec fn trim_end(s: Seq<char>) -> Seq<char>
    decreases s.len(),
{
    if s.len() > 0 && is_space(s.last()) {
        trim_end(s.drop_last())
    } else {
        s
    }
}

/// The text with surrounding whitespace removed.
pub open spec fn trim(s: Seq<char>) -> Seq<char> {
    trim_end(trim_start(s))
}

/// The pieces between occurrences of `c`, as `str::split` yields them.
pub open spec fn split(s: Seq<char>, c: char) -> Seq<Seq<char>>
    decreases s.len(),
{
    if s.len() == 0 {
        seq![Seq::<char>::empty()]
    } else {
        let p = split(s.drop_last(), c);
        if s.last() == c {
            p.push(Seq::<char>::empty())
        } else {
            p.update(p.len() - 1, p.last().push(s.last()))
        }
    }
}

/// The trimmed pieces, leaving out those that are empty after trimming.
pub open spec fn nonempty_trimmed(ps: Seq<Seq<char>>) -> Seq<Seq<char>>
    decreases ps.len(),
{
    if ps.len() == 0 {
        Seq::<Seq<char>>::empty()
    } else {
        let rest = nonempty_trimmed(ps.drop_last());
        if trim(ps.last()).len() > 0 {
            rest.push(trim(ps.last()))
        } else {
            rest
        }
    }
}

/// The items of a `c`-separated list.
pub open spec fn sep_items(s: Seq<char>, c: char) -> Seq<Seq<char>> {
    nonempty_trimmed(split(trim(s), c))
}

/// A separated list: absent when it has no item.
pub open spec fn sep_list(s: Seq<char>, c: char) -> Option<Seq<Seq<char>>> {
    if sep_items(s, c).len() > 0 {
        Some(sep_items(s, c))
    } else {
        None
    }
}

/// A scalar string: trimmed, absent when empty.
pub open spec fn opt_string(s: Seq<char>) -> Option<Seq<char>> {
    if trim(s).len() > 0 {
        Some(trim(s))
    } else {
        None
    }
}

pub open spec fn count_char(s: Seq<char>, c: char) -> nat
    decreases s.len(),
{
    if s.len() == 0 {
        0
    } else {
        count_char(s.drop_last(), c) + if s.last() == c { 1nat } else { 0nat }
    }
}

/// Index of the first `c` in `s`, or its length when there is none.
pub open spec fn find_char(s: Seq<char>, c: char) -> int
    decreases s.len(),
{
    if s.len() == 0 {
        0
    } else if s[0] == c {
        0
    } else {
        1 + find_char(s.drop_first(), c)
    }
}

pub open spec fn seq_views(v: Seq<String>) -> Seq<Seq<char>> {
    v.map_values(|x: String| x@)
}

pub open spec fn opt_view(o: Option<String>) -> Option<Seq<char>> {
    match o {
        Some(s) => Some(s@),
        None => None,
    }
}

pub open spec fn opt_seq_views(o: Option<Vec<String>>) -> Option<Seq<Seq<char>>> {
    match o {
        Some(v) => Some(seq_views(v@)),
        None => None,
    }
}

pub fn is_space_char(c: char) -> (r: bool)
    ensures
        r == is_space(c),
{
    ('\u{9}' <= c && c <= '\u{d}') || c == ' ' || c == '\u{85}' || c == '\u{a0}' || c == '\u{1680}'
        || ('\u{2000}' <= c && c <= '\u{200a}') || c == '\u{2028}' || c == '\u{2029}'
        || c == '\u{202f}' || c == '\u{205f}' || c == '\u{3000}'
}

/// Whether two strings hold the same characters.
pub fn str_eq(a: &str, b: &str) -> (r: bool)
    ensures
        r == (a@ == b@),
{
    let n = a.unicode_len();
    let m = b.unicode_len();
    if n != m {
        return false;
    }
    let mut i: usize = 0;
    while i < n
        invariant
            n == a@.len(),
            m == b@.len(),
            n == m,
            i <= n,
            a@.subrange(0, i as int) == b@.subrange(0, i as int),
        decreases n - i,
    {
        if a.get_char(i) != b.get_char(i) {
            assert(a@[i as int] != b@[i as int]);
            return false;
        }
        assert(a@.subrange(0, i + 1) == a@.subrange(0, i as int).push(a@[i as int]));
        assert(b@.subrange(0, i + 1) == b@.subrange(0, i as int).push(b@[i as int]));
        i = i + 1;
    }
    assert(a@ == a@.subrange(0, n as int));
    assert(b@ == b@.subrange(0, n as int));
    true
}

proof fn lemma_trim_start_skip(s: Seq<char>, i: int)
    requires
        0 <= i < s.len(),
        is_space(s[i]),
    ensures
        trim_start(s.subrange(i, s.len() as int)) == trim_start(s.subrange(i + 1, s.len() as int)),
{
    let t = s.subrange(i, s.len() as int);
    assert(t.drop_first() == s.subrange(i + 1, s.len() as int));
}

proof fn lemma_trim_end_skip(s: Seq<char>, j: int)
    requires
        0 < j <= s.len(),
        is_space(s[j - 1]),
    ensures
        trim_end(s.subrange(0, j)) == trim_end(s.subrange(0, j - 1)),
{
    let t = s.subrange(0, j);
    assert(t.drop_last() == s.subrange(0, j - 1));
}

/// Bounds `(i, j)` of the trimmed text inside `s`.
pub fn trim_bounds(s: &str) -> (r: (usize, usize))
    ensures
        r.0 <= r.1 <= s@.len(),
        s@.subrange(r.0 as int, r.1 as int) == trim(s@),
{
    let n = s.unicode_len();
    let mut i: usize = 0;
    assert(s@ == s@.subrange(0, n as int));
    while i < n && is_space_char(s.get_char(i))
        invariant
            n == s@.len(),
            i <= n,
            trim_start(s@) == trim_start(s@.subrange(i as int, n as int)),
        decreases n - i,
    {
        proof {
            lemma_trim_start_skip(s@, i as int);
        }
        i = i + 1;
    }
    let ghost u = s@.subrange(i as int, n as int);
    assert(trim_start(u) == u);
    let mut j: usize = n;
    while j > i && is_space_char(s.get_char(j - 1))
        invariant
            n == s@.len(),
            i <= j <= n,
            u == s@.subrange(i as int, n as int),
            trim_end(u) == trim_end(s@.subrange(i as int, j as int)),
        decreases j,
    {
        proof {
            let w = s@.subrange(i as int, j as int);
            assert(w.drop_last() == s@.subrange(i as int, j - 1));
        }
        j = j - 1;
    }
    let ghost w = s@.subrange(i as int, j as int);
    assert(trim_end(w) == w);
    (i, j)
}

/// The text without surrounding whitespace.
pub fn trimmed(s: &str) -> (r: &str)
    ensures
        r@ == trim(s@),
{
    let (i, j) = trim_bounds(s);
    s.substring_char(i, j)
}

/// A scalar string: trimmed, `None` when nothing is left.
pub fn get_string(text: &str) -> (r: Option<String>)
    ensures
        opt_view(r) == opt_string(text@),
{
    let t = trimmed(text);
    if t.unicode_len() > 0 {
        Some(String::from_str(t))
    } else {
        None
    }
}

pub proof fn lemma_views_push(v: Seq<String>, x: String)
    ensures
        seq_views(v.push(x)) == seq_views(v).push(x@),
{
    assert(seq_views(v.push(x)) =~= seq_views(v).push(x@));
}

/// The pieces of `s` between occurrences of `c`.
pub fn split_by(s: &str, c: char) -> (r: Vec<String>)
    ensures
        seq_views(r@) == split(s@, c),
{
    let n = s.unicode_len();
    let mut parts: Vec<String> = Vec::new();
    let mut start: usize = 0;
    let mut i: usize = 0;
    assert(s@.subrange(0, 0) =~= Seq::<char>::empty());
    assert(seq_views(parts@).push(s@.subrange(0, 0)) =~= seq![Seq::<char>::empty()]);
    while i < n
        invariant
            n == s@.len(),
            start <= i <= n,
            split(s@.subrange(0, i as int), c) == seq_views(parts@).push(s@.subrange(start as int, i as int)),
        decreases n - i,
    {
        let ghost t = s@.subrange(0, i + 1);
        assert(t.drop_last() =~= s@.subrange(0, i as int));
        assert(t.last() == s@[i as int]);
        let x = s.get_char(i);
        if x == c {
            let piece = String::from_str(s.substring_char(start, i));
            proof {
                lemma_views_push(parts@, piece);
                assert(s@.subrange(i + 1, i + 1) =~= Seq::<char>::empty());
            }
            parts.push(piece);
            start = i + 1;
        } else {
            proof {
                let p = seq_views(parts@).push(s@.subrange(start as int, i as int));
                assert(x == s@[i as int]);
                assert(s@.subrange(start as int, i as int).push(x) =~= s@.subrange(start as int, i + 1));
                assert(p.update(p.len() - 1, p.last().push(x)) =~= seq_views(parts@).push(
                    s@.subrange(start as int, i + 1),
                ));
            }
        }
        i = i + 1;
    }
    assert(s@.subrange(0, n as int) =~= s@);
    let last = String::from_str(s.substring_char(start, n));
    proof {
        lemma_views_push(parts@, last);
    }
    parts.push(last);
    parts
}

/// The items of a `c`-separated list, trimmed, without empty ones; `None`
/// when no item is left.
pub fn get_char_sep_slice(text: &str, c: char) -> (r: Option<Vec<String>>)
    ensures
        opt_seq_views(r) == sep_list(text@, c),
{
    let parts = split_by(trimmed(text), c);
    let ghost ps = seq_views(parts@);
    let mut items: Vec<String> = Vec::new();
    let mut i: usize = 0;
    assert(ps.take(0) =~= Seq::<Seq<char>>::empty());
    assert(seq_views(items@) =~= Seq::<Seq<char>>::empty());
    while i < parts.len()
        invariant
            i <= parts.len(),
            ps == seq_views(parts@),
            seq_views(items@) == nonempty_trimmed(ps.take(i as int)),
        decreases parts.len() - i,
    {
        assert(ps.take(i + 1).drop_last() =~= ps.take(i as int));
        assert(ps.take(i + 1).last() == parts@[i as int]@);
        let item = trimmed(parts[i].as_str());
        if item.unicode_len() > 0 {
            let owned = String::from_str(item);
            proof {
                lemma_views_push(items@, owned);
            }
            items.push(owned);
        }
        i = i + 1;
    }
    assert(ps.take(parts.len() as int) =~= ps);
    if items.len() > 0 {
        Some(items)
    } else {
        None
    }
}

/// The line without its comment: everything from the first `#` on is dropped.
pub open spec fn strip_comment(s: Seq<char>) -> Seq<char> {
    s.take(find_char(s, '#'))
}

/// The name of a section header line `[ name ]`, if the line is one.
pub open spec fn header(s: Seq<char>) -> Option<Seq<char>> {
    let t = trim(s);
    if t.len() >= 2 && t[0] == '[' && t.last() == ']' && find_char(t.subrange(1, t.len() - 1), ']')
        == t.len() - 2 {
        Some(trim(t.subrange(1, t.len() - 1)))
    } else {
        None
    }
}

pub open spec fn lines_view(v: Seq<Option<String>>) -> Seq<Option<Seq<char>>> {
    v.map_values(|x: Option<String>| opt_view(x))
}

/// The section in force after the given lines; lines that could not be read
/// are `None` and change nothing.
pub open spec fn section_after(lines: Seq<Option<Seq<char>>>) -> Seq<char>
    decreases lines.len(),
{
    if lines.len() == 0 {
        Seq::<char>::empty()
    } else {
        match lines.last() {
            Some(l) => match header(strip_comment(l)) {
                Some(h) => h,
                None => section_after(lines.drop_last()),
            },
            None => section_after(lines.drop_last()),
        }
    }
}

/// The non-empty content lines of section `name`, comments stripped and
/// trimmed, in their order.
pub open spec fn section_lines(lines: Seq<Option<Seq<char>>>, name: Seq<char>) -> Seq<Seq<char>>
    decreases lines.len(),
{
    if lines.len() == 0 {
        Seq::<Seq<char>>::empty()
    } else {
        let rest = section_lines(lines.drop_last(), name);
        match lines.last() {
            Some(l) => {
                let body = strip_comment(l);
                if header(body) is None && section_after(lines.drop_last()) == name && trim(body).len()
                    > 0 {
                    rest.push(trim(body))
                } else {
                    rest
                }
            },
            None => rest,
        }
    }
}

/// Index of the first `c` in `s`, or its length.
pub fn find(s: &str, c: char) -> (r: usize)
    ensures
        r == find_char(s@, c),
        r <= s@.len(),
{
    let n = s.unicode_len();
    let mut i: usize = 0;
    assert(s@.subrange(0, n as int) =~= s@);
    while i < n && s.get_char(i) != c
        invariant
            n == s@.len(),
            i <= n,
            find_char(s@, c) == i + find_char(s@.subrange(i as int, n as int), c),
        decreases n - i,
    {
        proof {
            let t = s@.subrange(i as int, n as int);
            assert(t.drop_first() =~= s@.subrange(i + 1, n as int));
        }
        i = i + 1;
    }
    proof {
        assert(s@.subrange(0, n as int) =~= s@);
        let t = s@.subrange(i as int, n as int);
        if i < n {
            assert(t[0] == c);
        } else {
            assert(t.len() == 0);
        }
    }
    i
}

/// The line with its comment removed.
pub fn remove_comments(text: &str) -> (r: &str)
    ensures
        r@ == strip_comment(text@),
{
    let k = find(text, '#');
    text.substring_char(0, k)
}

/// The section name if `text` is a header line.
pub fn get_section(text: &str) -> (r: Option<&str>)
    ensures
        match r {
            Some(h) => header(text@) == Some(h@),
            None => header(text@) is None,
        },
{
    let t = trimmed(text);
    let n = t.unicode_len();
    if n >= 2 && t.get_char(0) == '[' && t.get_char(n - 1) == ']' {
        let inner = t.substring_char(1, n - 1);
        if find(inner, ']') == n - 2 {
            return Some(trimmed(inner));
        }
    }
    None
}

/// The lines of section `section`, as `section_lines` describes them.
pub fn get_lines_by_section(section: &str, lines: &Vec<Option<String>>) -> (r: Vec<String>)
    ensures
        seq_views(r@) == section_lines(lines_view(lines@), section@),
{
    let ghost ls = lines_view(lines@);
    let mut new_lines: Vec<String> = Vec::new();
    let mut curr_sect: String = String::new();
    let mut i: usize = 0;
    assert(ls.take(0) =~= Seq::<Option<Seq<char>>>::empty());
    assert(seq_views(new_lines@) =~= Seq::<Seq<char>>::empty());
    while i < lines.len()
        invariant
            i <= lines.len(),
            ls == lines_view(lines@),
            curr_sect@ == section_after(ls.take(i as int)),
            seq_views(new_lines@) == section_lines(ls.take(i as int), section@),
        decreases lines.len() - i,
    {
        assert(ls.take(i + 1).drop_last() =~= ls.take(i as int));
        assert(ls.take(i + 1).last() == opt_view(lines@[i as int]));
        match &lines[i] {
            Some(line) => {
                let body = remove_comments(line.as_str());
                match get_section(body) {
                    Some(h) => {
                        curr_sect = String::from_str(h);
                    },
                    None => {
                        if str_eq(curr_sect.as_str(), section) {
                            let t = trimmed(body);
                            if t.unicode_len() > 0 {
                                let owned = String::from_str(t);
                                proof {
                                    lemma_views_push(new_lines@, owned);
                                }
                                new_lines.push(owned);
                            }
                        }
                    },
                }
            },
            None => {},
        }
        i = i + 1;
    }
    assert(ls.take(lines.len() as int) =~= ls);
    new_lines
}

pub open spec fn is_digit(c: char) -> bool {
    '0' <= c && c <= '9'
}

/// The value of a run of decimal digits.
pub open spec fn digits_value(s: Seq<char>) -> int
    decreases s.len(),
{
    if s.len() == 0 {
        0
    } else {
        digits_value(s.drop_last()) * 10 + (s.last() as int - '0' as int)
    }
}

/// A non-empty run of decimal digits, read as a number.
pub open spec fn decimal(d: Seq<char>) -> Option<int> {
    if d.len() > 0 && forall|i: int| 0 <= i < d.len() ==> is_digit(#[trigger] d[i]) {
        Some(digits_value(d))
    } else {
        None
    }
}

/// An unsigned number as `str::parse` reads it: an optional `+`, then digits.
pub open spec fn parse_unsigned(s: Seq<char>) -> Option<int> {
    if s.len() > 0 && s[0] == '+' {
        decimal(s.drop_first())
    } else {
        decimal(s)
    }
}

/// A signed number as `str::parse` reads it: an optional `+` or `-`, then digits.
pub open spec fn parse_signed(s: Seq<char>) -> Option<int> {
    if s.len() > 0 && s[0] == '-' {
        match decimal(s.drop_first()) {
            Some(v) => Some(-v),
            None => None,
        }
    } else {
        parse_unsigned(s)
    }
}

pub open spec fn parse_u16_spec(s: Seq<char>) -> Option<u16> {
    match parse_unsigned(s) {
        Some(v) => if v <= u16::MAX {
            Some(v as u16)
        } else {
            None
        },
        None => None,
    }
}

pub open spec fn parse_i32_spec(s: Seq<char>) -> Option<i32> {
    match parse_signed(s) {
        Some(v) => if i32::MIN <= v <= i32::MAX {
            Some(v as i32)
        } else {
            None
        },
        None => None,
    }
}

pub const DIGITS_CAP: u64 = 0x8000_0000;

/// The value of the digits of `s` from index `from` on, when they are all
/// digits, there is at least one, and the value is at most `DIGITS_CAP`.
fn decimal_from(s: &str, from: usize) -> (r: Option<u64>)
    requires
        from <= s@.len(),
    ensures
        ({
            let d = s@.subrange(from as int, s@.len() as int);
            match r {
                Some(v) => decimal(d) == Some(v as int) && v <= DIGITS_CAP,
                None => decimal(d) is None || digits_value(d) > DIGITS_CAP,
            }
        }),
{
    let n = s.unicode_len();
    let ghost d = s@.subrange(from as int, n as int);
    if from == n {
        return None;
    }
    let mut acc: u64 = 0;
    let mut over = false;
    let mut i: usize = from;
    assert(d.take(0) =~= Seq::<char>::empty());
    while i < n
        invariant
            n == s@.len(),
            from <= i <= n,
            d == s@.subrange(from as int, n as int),
            forall|k: int| 0 <= k < i - from ==> is_digit(#[trigger] d[k]),
            !over ==> acc == digits_value(d.take(i - from)) && acc <= DIGITS_CAP,
            over ==> digits_value(d.take(i - from)) > DIGITS_CAP,
        decreases n - i,
    {
        let c = s.get_char(i);
        if !('0' <= c && c <= '9') {
            assert(!is_digit(d[i - from]));
            return None;
        }
        let ghost t = d.take(i - from + 1);
        assert(t.drop_last() =~= d.take(i - from));
        assert(t.last() == c);
        if !over {
            let next = acc * 10 + (c as u64 - '0' as u64);
            if next > DIGITS_CAP {
                over = true;
            } else {
                acc = next;
            }
        } else {
            let ghost x = digits_value(d.take(i - from));
            assert(x * 10 + (c as int - '0' as int) > DIGITS_CAP) by (nonlinear_arith)
                requires
                    x > DIGITS_CAP,
                    c as int - '0' as int >= 0,
            ;
        }
        i = i + 1;
    }
    assert(d.take(n - from) =~= d);
    if over {
        None
    } else {
        Some(acc)
    }
}

/// A `u16` as `str::parse` reads it.
pub fn parse_u16(s: &str) -> (r: Option<u16>)
    ensures
        r == parse_u16_spec(s@),
{
    let n = s.unicode_len();
    let from: usize = if n > 0 && s.get_char(0) == '+' { 1 } else { 0 };
    assert(s@.drop_first() =~= s@.subrange(1, n as int));
    assert(s@ =~= s@.subrange(0, n as int));
    match decimal_from(s, from) {
        Some(v) => if v <= 65535 {
            Some(v as u16)
        } else {
            None
        },
        None => None,
    }
}

/// An `i32` as `str::parse` reads it.
pub fn parse_i32(s: &str) -> (r: Option<i32>)
    ensures
        r == parse_i32_spec(s@),
{
    let n = s.unicode_len();
    let neg = n > 0 && s.get_char(0) == '-';
    let from: usize = if n > 0 && (s.get_char(0) == '+' || neg) { 1 } else { 0 };
    assert(s@.drop_first() =~= s@.subrange(1, n as int));
    assert(s@ =~= s@.subrange(0, n as int));
    match decimal_from(s, from) {
        Some(v) => if neg {
            Some((0 - v as i64) as i32)
        } else if v <= 0x7fff_ffff {
            Some(v as i32)
        } else {
            None
        },
        None => None,
    }
}

/// A lenient integer: trimmed, then read; `None` when malformed.
pub fn get_i32(text: &str) -> (r: Option<i32>)
    ensures
        r == parse_i32_spec(trim(text@)),
{
    parse_i32(trimmed(text))
}

/// A lenient port number: trimmed, then read; `None` when malformed.
pub fn get_u16(text: &str) -> (r: Option<u16>)
    ensures
        r == parse_u16_spec(trim(text@)),
{
    parse_u16(trimmed(text))
}

/// A field that stands in a line as it is: non-empty, without surrounding
/// whitespace, and without `,` or `=`.
pub open spec fn plain_field(s: Seq<char>) -> bool {
    &&& s.len() > 0
    &&& !is_space(s[0])
    &&& !is_space(s.last())
    &&& forall|i: int| 0 <= i < s.len() ==> #[trigger] s[i] != ',' && s[i] != '='
}

pub proof fn lemma_trim_plain(s: Seq<char>)
    requires
        s.len() > 0,
        !is_space(s[0]),
        !is_space(s.last()),
    ensures
        trim(s) == s,
{
}

/// Spaces before and after a plain field are trimmed away.
pub proof fn lemma_trim_padded(s: Seq<char>)
    requires
        s.len() > 0,
        !is_space(s[0]),
        !is_space(s.last()),
    ensures
        trim(seq![' '] + s) == s,
        trim(s + seq![' ']) == s,
{
    let a = seq![' '] + s;
    assert(a.drop_first() =~= s);
    assert(trim_start(a) == trim_start(s));
    let b = s + seq![' '];
    assert(b.drop_last() =~= s);
    assert(b[0] == s[0]);
    assert(trim_start(b) == b);
    assert(trim_end(b) == trim_end(s));
}

pub proof fn lemma_find_char_at(s: Seq<char>, c: char, k: int)
    requires
        0 <= k < s.len(),
        s[k] == c,
        forall|i: int| 0 <= i < k ==> s[i] != c,
    ensures
        find_char(s, c) == k,
    decreases k,
{
    if k > 0 {
        let t = s.drop_first();
        assert forall|i: int| 0 <= i < k - 1 implies t[i] != c by {
            assert(t[i] == s[i + 1]);
        }
        lemma_find_char_at(t, c, k - 1);
    }
}

pub proof fn lemma_split_len(s: Seq<char>, c: char)
    ensures
        split(s, c).len() >= 1,
    decreases s.len(),
{
    if s.len() > 0 {
        lemma_split_len(s.drop_last(), c);
    }
}

/// Text without the separator is one piece.
pub proof fn lemma_split_single(s: Seq<char>, c: char)
    requires
        forall|i: int| 0 <= i < s.len() ==> s[i] != c,
    ensures
        split(s, c) == seq![s],
    decreases s.len(),
{
    if s.len() > 0 {
        lemma_split_single(s.drop_last(), c);
        assert(s.drop_last().push(s.last()) =~= s);
        assert(seq![s.drop_last()].update(0, s.drop_last().push(s.last())) =~= seq![s]);
    } else {
        assert(s =~= Seq::<char>::empty());
    }
}

/// The pieces of `a`, a separator, then `b`, are those of `a` then those of `b`.
pub proof fn lemma_split_concat(a: Seq<char>, c: char, b: Seq<char>)
    ensures
        split(a + seq![c] + b, c) == split(a, c) + split(b, c),
    decreases b.len(),
{
    let s = a + seq![c] + b;
    if b.len() == 0 {
        assert(s.drop_last() =~= a);
        assert(split(b, c) =~= seq![Seq::<char>::empty()]);
        assert(split(s, c) =~= split(a, c) + split(b, c));
    } else {
        lemma_split_concat(a, c, b.drop_last());
        assert(s.drop_last() =~= a + seq![c] + b.drop_last());
        assert(s.last() == b.last());
        lemma_split_len(b.drop_last(), c);
        let pa = split(a, c);
        let q = split(b.drop_last(), c);
        if b.last() != c {
            let p = pa + q;
            assert(p.update(p.len() - 1, p.last().push(b.last())) =~= pa + q.update(
                q.len() - 1,
                q.last().push(b.last()),
            ));
        } else {
            assert((pa + q).push(Seq::<char>::empty()) =~= pa + q.push(Seq::<char>::empty()));
        }
    }
}

/// A boolean as `str::parse` reads it: `true` or `false`, nothing else.
pub open spec fn parse_bool_spec(s: Seq<char>) -> Option<bool> {
    if s == "true"@ {
        Some(true)
    } else if s == "false"@ {
        Some(false)
    } else {
        None
    }
}

/// A boolean as `str::parse` reads it.
pub fn parse_bool(s: &str) -> (r: Option<bool>)
    ensures
        r == parse_bool_spec(s@),
{
    if str_eq(s, "true") {
        Some(true)
    } else if str_eq(s, "false") {
        Some(false)
    } else {
        None
    }
}

/// A leniently decoded value: the parsed one, or the current one where the
/// text did not parse.
pub open spec fn parsed_or<T>(parsed: Option<T>, current: Option<T>) -> Option<T> {
    match parsed {
        Some(x) => Some(x),
        None => current,
    }
}

pub proof fn lemma_find_char_absent(s: Seq<char>, c: char)
    requires
        forall|i: int| 0 <= i < s.len() ==> s[i] != c,
    ensures
        find_char(s, c) == s.len(),
    decreases s.len(),
{
    if s.len() > 0 {
        let t = s.drop_first();
        assert forall|i: int| 0 <= i < t.len() implies t[i] != c by {
            assert(t[i] == s[i + 1]);
        }
        lemma_find_char_absent(t, c);
    }
}

} // verus!
