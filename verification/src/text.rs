//! Character-level text handling: whitespace, trimming, splitting on a
//! separator, joining, and decimal numbers.
use vstd::prelude::*;

verus! {

/// Unicode `White_Space`: the characters for which `char::is_whitespace` holds.
pub open spec fn is_ws(c: char) -> bool {
    let n = c as u32;
    ||| 0x09 <= n <= 0x0D
    ||| n == 0x20
    ||| n == 0x85
    ||| n == 0xA0
    ||| n == 0x1680
    ||| 0x2000 <= n <= 0x200A
    ||| n == 0x2028
    ||| n == 0x2029
    ||| n == 0x202F
    ||| n == 0x205F
    ||| n == 0x3000
}

/// `s` without its leading whitespace.
pub open spec fn trim_start(s: Seq<char>) -> Seq<char>
    decreases s.len(),
{
    if s.len() > 0 && is_ws(s[0]) {
        trim_start(s.drop_first())
    } else {
        s
    }
}

/// `s` without its trailing whitespace.
pub open spec fn trim_end(s: Seq<char>) -> Seq<char>
    decreases s.len(),
{
    if s.len() > 0 && is_ws(s.last()) {
        trim_end(s.drop_last())
    } else {
        s
    }
}

/// `s` without leading and trailing whitespace, as `str::trim` gives it.
pub open spec fn trim(s: Seq<char>) -> Seq<char> {
    trim_end(trim_start(s))
}

/// The pieces of `s` between occurrences of `sep`, as `str::split` with a
/// `char` pattern yields them: one piece more than there are separators, so
/// the empty text gives one empty piece.
pub open spec fn split_on(s: Seq<char>, sep: char) -> Seq<Seq<char>>
    decreases s.len(),
{
    if s.len() == 0 {
        seq![Seq::empty()]
    } else {
        let pieces = split_on(s.drop_last(), sep);
        if s.last() == sep {
            pieces.push(Seq::empty())
        } else {
            pieces.update(pieces.len() - 1, pieces.last().push(s.last()))
        }
    }
}

/// Each piece trimmed, the pieces that are then empty left out, order kept.
pub open spec fn trimmed_nonempty(pieces: Seq<Seq<char>>) -> Seq<Seq<char>>
    decreases pieces.len(),
{
    if pieces.len() == 0 {
        Seq::empty()
    } else {
        let rest = trimmed_nonempty(pieces.drop_last());
        let t = trim(pieces.last());
        if t.len() > 0 {
            rest.push(t)
        } else {
            rest
        }
    }
}

/// The parts, with `sep` between each two neighbours (`[T]::join`).
pub open spec fn join(parts: Seq<Seq<char>>, sep: Seq<char>) -> Seq<char>
    decreases parts.len(),
{
    if parts.len() == 0 {
        Seq::empty()
    } else if parts.len() == 1 {
        parts[0]
    } else {
        join(parts.drop_last(), sep) + sep + parts.last()
    }
}

/// Whether `c` is whitespace (`char::is_whitespace`).
pub fn is_whitespace(c: char) -> (b: bool)
    ensures
        b == is_ws(c),
{
    let n = c as u32;
    (0x09 <= n && n <= 0x0D) || n == 0x20 || n == 0x85 || n == 0xA0 || n == 0x1680 || (0x2000
        <= n && n <= 0x200A) || n == 0x2028 || n == 0x2029 || n == 0x202F || n == 0x205F || n
        == 0x3000
}

/// The characters of `s`, in order.
pub fn chars_of(s: &str) -> (v: Vec<char>)
    ensures
        v@ == s@,
{
    let mut v: Vec<char> = Vec::new();
    for c in it: s.chars()
        invariant
            v@ == it.seq().take(it.index()),
    {
        v.push(c);
    }
    assert(v@ =~= s@);
    v
}

proof fn lemma_trim_start_skip(s: Seq<char>, i: int)
    requires
        0 <= i <= s.len(),
        forall|k: int| 0 <= k < i ==> is_ws(#[trigger] s[k]),
    ensures
        trim_start(s) == trim_start(s.subrange(i, s.len() as int)),
    decreases i,
{
    if i > 0 {
        assert(s.drop_first().subrange(i - 1, s.drop_first().len() as int) =~= s.subrange(
            i,
            s.len() as int,
        ));
        lemma_trim_start_skip(s.drop_first(), i - 1);
    } else {
        assert(s.subrange(0, s.len() as int) =~= s);
    }
}

proof fn lemma_trim_end_cut(s: Seq<char>, j: int)
    requires
        0 <= j <= s.len(),
        forall|k: int| j <= k < s.len() ==> is_ws(#[trigger] s[k]),
    ensures
        trim_end(s) == trim_end(s.subrange(0, j)),
    decreases s.len() - j,
{
    if j < s.len() {
        assert(s.drop_last().subrange(0, j) =~= s.subrange(0, j));
        lemma_trim_end_cut(s.drop_last(), j);
    } else {
        assert(s.subrange(0, j) =~= s);
    }
}

/// `s` with leading and trailing whitespace removed (`str::trim`).
pub fn trim_str(s: &str) -> (t: &str)
    ensures
        t@ == trim(s@),
{
    let cs = chars_of(s);
    let n = cs.len();
    let mut i: usize = 0;
    while i < n && is_whitespace(cs[i])
        invariant
            cs@ == s@,
            n == cs.len(),
            i <= n,
            forall|k: int| 0 <= k < i ==> is_ws(#[trigger] s@[k]),
        decreases n - i,
    {
        i = i + 1;
    }
    let mut j: usize = n;
    while j > i && is_whitespace(cs[j - 1])
        invariant
            cs@ == s@,
            n == cs.len(),
            i <= j <= n,
            forall|k: int| j <= k < n ==> is_ws(#[trigger] s@[k]),
        decreases j,
    {
        j = j - 1;
    }
    proof {
        lemma_trim_start_skip(s@, i as int);
        let rest = s@.subrange(i as int, n as int);
        if i < n {
            assert(!is_ws(rest[0]));
        }
        assert(trim_start(rest) == rest);
        assert forall|k: int| j - i <= k < rest.len() implies is_ws(#[trigger] rest[k]) by {
            assert(rest[k] == s@[k + i]);
        }
        lemma_trim_end_cut(rest, j - i);
        let mid = rest.subrange(0, j - i);
        assert(mid =~= s@.subrange(i as int, j as int));
        if j > i {
            assert(!is_ws(mid.last()));
        }
        assert(trim_end(mid) == mid);
    }
    s.substring_char(i, j)
}

/// The views of a list of string slices.
pub open spec fn views_of(v: Seq<&str>) -> Seq<Seq<char>> {
    v.map_values(|p: &str| p@)
}

/// The views of a list of strings.
pub open spec fn string_views(v: Seq<String>) -> Seq<Seq<char>> {
    v.map_values(|p: String| p@)
}

/// The pieces of `s` between occurrences of `sep` (`str::split` with a `char`).
pub fn split_str(s: &str, sep: char) -> (pieces: Vec<&str>)
    ensures
        views_of(pieces@) == split_on(s@, sep),
{
    let cs = chars_of(s);
    let n = cs.len();
    let mut pieces: Vec<&str> = Vec::new();
    let mut start: usize = 0;
    let mut i: usize = 0;
    assert(s@.take(0) =~= Seq::<char>::empty());
    assert(views_of(pieces@).push(s@.subrange(0, 0)) =~= split_on(s@.take(0), sep));
    while i < n
        invariant
            cs@ == s@,
            n == cs.len(),
            start <= i <= n,
            views_of(pieces@).push(s@.subrange(start as int, i as int)) == split_on(
                s@.take(i as int),
                sep,
            ),
        decreases n - i,
    {
        let ghost before = views_of(pieces@);
        let ghost prev = split_on(s@.take(i as int), sep);
        let ghost next = s@.take(i + 1);
        assert(next.drop_last() =~= s@.take(i as int));
        assert(next.last() == s@[i as int]);
        assert(split_on(next, sep) == if next.last() == sep {
            prev.push(Seq::empty())
        } else {
            prev.update(prev.len() - 1, prev.last().push(next.last()))
        });
        if cs[i] == sep {
            let piece = s.substring_char(start, i);
            assert(prev == before.push(piece@));
            pieces.push(piece);
            start = i + 1;
            assert(views_of(pieces@) =~= before.push(piece@));
            assert(s@.subrange(start as int, i + 1) =~= Seq::<char>::empty());
            assert(views_of(pieces@).push(s@.subrange(start as int, i + 1)) =~= split_on(
                next,
                sep,
            ));
        } else {
            assert(s@.subrange(start as int, i + 1) =~= s@.subrange(start as int, i as int).push(
                s@[i as int],
            ));
            assert(views_of(pieces@).push(s@.subrange(start as int, i + 1)) =~= split_on(
                next,
                sep,
            ));
        }
        i = i + 1;
    }
    let last = s.substring_char(start, n);
    let ghost before = views_of(pieces@);
    pieces.push(last);
    assert(views_of(pieces@) =~= before.push(last@));
    assert(s@.take(n as int) =~= s@);
    pieces
}

/// The pieces of `s` between occurrences of `sep`, each trimmed, the empty
/// ones left out.
pub fn split_trimmed(s: &str, sep: char) -> (parts: Vec<&str>)
    ensures
        views_of(parts@) == trimmed_nonempty(split_on(s@, sep)),
{
    let pieces = split_str(s, sep);
    let mut parts: Vec<&str> = Vec::new();
    let mut i: usize = 0;
    assert(views_of(pieces@).take(0) =~= Seq::<Seq<char>>::empty());
    assert(views_of(parts@) =~= Seq::<Seq<char>>::empty());
    while i < pieces.len()
        invariant
            i <= pieces.len(),
            views_of(pieces@) == split_on(s@, sep),
            views_of(parts@) == trimmed_nonempty(views_of(pieces@).take(i as int)),
        decreases pieces.len() - i,
    {
        let ghost before = views_of(parts@);
        let t = trim_str(pieces[i]);
        assert(views_of(pieces@).take(i + 1).drop_last() =~= views_of(pieces@).take(i as int));
        assert(views_of(pieces@).take(i + 1).last() == pieces@[i as int]@);
        if t.unicode_len() > 0 {
            parts.push(t);
            assert(views_of(parts@) =~= before.push(t@));
        }
        i = i + 1;
    }
    assert(views_of(pieces@).take(pieces.len() as int) =~= views_of(pieces@));
    parts
}

/// The parts of `parts`, with `sep` between each two neighbours (`[String]::join`).
pub fn join_strings(parts: &[String], sep: &str) -> (joined: String)
    ensures
        joined@ == join(string_views(parts@), sep@),
{
    let mut joined = String::new();
    let mut i: usize = 0;
    while i < parts.len()
        invariant
            i <= parts.len(),
            joined@ == join(string_views(parts@).take(i as int), sep@),
        decreases parts.len() - i,
    {
        let ghost before = joined@;
        assert(string_views(parts@).take(i + 1).drop_last() =~= string_views(parts@).take(
            i as int,
        ));
        if i > 0 {
            joined.append(sep);
        }
        joined.append(parts[i].as_str());
        i = i + 1;
        assert(joined@ =~= join(string_views(parts@).take(i as int), sep@));
    }
    assert(string_views(parts@).take(parts.len() as int) =~= string_views(parts@));
    joined
}

/// Whether `c` is one of the ASCII digits `0` to `9`.
pub open spec fn is_digit(c: char) -> bool {
    48 <= c as u32 <= 57
}

/// The number that a sequence of ASCII digits writes in decimal.
pub open spec fn digits_value(ds: Seq<char>) -> nat
    decreases ds.len(),
{
    if ds.len() == 0 {
        0
    } else {
        digits_value(ds.drop_last()) * 10 + (ds.last() as u32 - 48) as nat
    }
}

/// `s` without one leading `+`, if it has one.
pub open spec fn unsigned_body(s: Seq<char>) -> Seq<char> {
    if s.len() > 0 && s[0] == '+' {
        s.drop_first()
    } else {
        s
    }
}

/// What `str::parse::<usize>` gives for `s`: an optional `+`, then one or more
/// ASCII digits whose value fits in a `usize`; `None` for anything else.
pub open spec fn parse_usize_spec(s: Seq<char>) -> Option<usize> {
    let body = unsigned_body(s);
    if body.len() > 0 && (forall|i: int| 0 <= i < body.len() ==> is_digit(#[trigger] body[i]))
        && digits_value(body) <= usize::MAX {
        Some(digits_value(body) as usize)
    } else {
        None
    }
}

proof fn lemma_digits_value_grows(ds: Seq<char>, k: int)
    requires
        0 <= k <= ds.len(),
        forall|i: int| 0 <= i < ds.len() ==> is_digit(#[trigger] ds[i]),
    ensures
        digits_value(ds.take(k)) <= digits_value(ds),
    decreases ds.len(),
{
    if k < ds.len() {
        let d = ds.drop_last();
        assert forall|i: int| 0 <= i < d.len() implies is_digit(#[trigger] d[i]) by {
            assert(d[i] == ds[i]);
        }
        lemma_digits_value_grows(d, k);
        assert(d.take(k) =~= ds.take(k));
        let v = digits_value(d);
        assert(v <= v * 10 + (ds.last() as u32 - 48) as nat) by (nonlinear_arith);
    } else {
        assert(ds.take(k) =~= ds);
    }
}

/// Why a text is not a decimal `usize`, as `std::num::IntErrorKind` tells it
/// for `str::parse::<usize>`.
#[derive(Clone, Copy, PartialEq, Eq, Debug)]
pub enum IntFault {
    /// The text is empty.
    Empty,
    /// A character that is not a digit comes before the value grows too large.
    InvalidDigit,
    /// The value grows too large for a `usize` before any character that is
    /// not a digit.
    PosOverflow,
}

/// How many characters at the start of `s` are ASCII digits.
pub open spec fn leading_digits(s: Seq<char>) -> nat
    decreases s.len(),
{
    if s.len() > 0 && is_digit(s[0]) {
        1 + leading_digits(s.drop_first())
    } else {
        0
    }
}

/// Why `str::parse::<usize>` refuses `s`, where it does: an empty text is
/// empty; else, after an optional `+`, the value of the leading digits either
/// exceeds `usize::MAX`, which is met first, or a character that is not a
/// digit follows them (a lone `+` counts as such).
pub open spec fn parse_usize_fault(s: Seq<char>) -> IntFault {
    if s.len() == 0 {
        IntFault::Empty
    } else {
        let body = unsigned_body(s);
        if digits_value(body.take(leading_digits(body) as int)) > usize::MAX {
            IntFault::PosOverflow
        } else {
            IntFault::InvalidDigit
        }
    }
}

proof fn lemma_leading_digits(s: Seq<char>, j: int)
    requires
        0 <= j <= s.len(),
        forall|k: int| 0 <= k < j ==> is_digit(#[trigger] s[k]),
    ensures
        leading_digits(s) >= j,
        leading_digits(s) <= s.len(),
        j < s.len() && !is_digit(s[j]) ==> leading_digits(s) == j,
        forall|k: int| 0 <= k < leading_digits(s) ==> is_digit(#[trigger] s[k]),
    decreases s.len(),
{
    if s.len() > 0 && is_digit(s[0]) {
        let d = s.drop_first();
        let j2 = if j > 0 { j - 1 } else { 0 };
        assert forall|k: int| 0 <= k < j2 implies is_digit(#[trigger] d[k]) by {
            assert(d[k] == s[k + 1]);
        }
        lemma_leading_digits(d, j2);
        assert forall|k: int| 0 <= k < leading_digits(s) implies is_digit(#[trigger] s[k]) by {
            if k > 0 {
                assert(s[k] == d[k - 1]);
            }
        }
    } else {
        if j > 0 {
            assert(is_digit(s[0]));
        }
    }
}

/// `s` read as a decimal `usize`, as `str::parse::<usize>` reads it, or why
/// it is not one.
pub fn parse_usize(s: &str) -> (n: Result<usize, IntFault>)
    ensures
        match parse_usize_spec(s@) {
            Some(v) => n == Ok::<usize, IntFault>(v),
            None => n == Err::<usize, IntFault>(parse_usize_fault(s@)),
        },
{
    let cs = chars_of(s);
    let len = cs.len();
    if len == 0 {
        return Err(IntFault::Empty);
    }
    let mut i: usize = 0;
    if cs[0] == '+' {
        i = 1;
    }
    let start = i;
    let ghost body = s@.subrange(start as int, len as int);
    assert(body =~= unsigned_body(s@));
    if start == len {
        proof {
            assert(body.len() == 0);
            assert(leading_digits(body) == 0);
            assert(body.take(0) =~= Seq::<char>::empty());
        }
        return Err(IntFault::InvalidDigit);
    }
    let mut acc: usize = 0;
    assert(body.take(0) =~= Seq::<char>::empty());
    while i < len
        invariant
            cs@ == s@,
            len == cs.len(),
            0 < len,
            start < len,
            start <= i <= len,
            body == s@.subrange(start as int, len as int),
            body == unsigned_body(s@),
            forall|k: int| 0 <= k < i - start ==> is_digit(#[trigger] body[k]),
            acc == digits_value(body.take(i - start)),
        decreases len - i,
    {
        let c = cs[i];
        assert(c == body[i - start]);
        if !(48 <= c as u32 && c as u32 <= 57) {
            proof {
                assert(!is_digit(body[i - start]));
                lemma_leading_digits(body, i - start);
            }
            return Err(IntFault::InvalidDigit);
        }
        let d = (c as u32 - 48) as usize;
        assert(body.take(i - start + 1).drop_last() =~= body.take(i - start));
        assert(body.take(i - start + 1).last() == c);
        assert(digits_value(body.take(i - start + 1)) == acc * 10 + d);
        let next = match acc.checked_mul(10) {
            None => None,
            Some(m) => m.checked_add(d),
        };
        match next {
            None => {
                proof {
                    assert forall|k: int| 0 <= k < i - start + 1 implies is_digit(#[trigger] body[k]) by {
                        if k == i - start {
                            assert(body[k] == c);
                        }
                    }
                    lemma_leading_digits(body, i - start + 1);
                    let ld = leading_digits(body) as int;
                    let pre = body.take(ld);
                    assert forall|k: int| 0 <= k < pre.len() implies is_digit(#[trigger] pre[k]) by {
                        assert(pre[k] == body[k]);
                    }
                    lemma_digits_value_grows(pre, i - start + 1);
                    assert(pre.take(i - start + 1) =~= body.take(i - start + 1));
                    if forall|k: int| 0 <= k < body.len() ==> is_digit(#[trigger] body[k]) {
                        lemma_digits_value_grows(body, i - start + 1);
                    }
                }
                return Err(IntFault::PosOverflow);
            },
            Some(v) => {
                acc = v;
            },
        }
        i = i + 1;
    }
    assert(body.take(len - start) =~= body);
    Ok(acc)
}

/// `s` without `prefix`, where `s` starts with it (`str::strip_prefix`).
pub open spec fn strip_prefix_spec(s: Seq<char>, prefix: Seq<char>) -> Option<Seq<char>> {
    if prefix.is_prefix_of(s) {
        Some(s.skip(prefix.len() as int))
    } else {
        None
    }
}

/// `s` without `prefix`, where `s` starts with it (`str::strip_prefix`).
pub fn strip_prefix_str<'a>(s: &'a str, prefix: &str) -> (rest: Option<&'a str>)
    ensures
        rest matches Some(r) ==> strip_prefix_spec(s@, prefix@) == Some(r@),
        rest is None ==> strip_prefix_spec(s@, prefix@) is None,
{
    let cs = chars_of(s);
    let ps = chars_of(prefix);
    if ps.len() > cs.len() {
        return None;
    }
    let mut i: usize = 0;
    while i < ps.len()
        invariant
            cs@ == s@,
            ps@ == prefix@,
            ps.len() <= cs.len(),
            i <= ps.len(),
            forall|k: int| 0 <= k < i ==> cs@[k] == ps@[k],
        decreases ps.len() - i,
    {
        if cs[i] != ps[i] {
            return None;
        }
        i = i + 1;
    }
    assert(prefix@.is_prefix_of(s@));
    Some(s.substring_char(ps.len(), cs.len()))
}

/// The text after the last `sep` in `s`, or all of `s` where it has none: the
/// first item that `str::rsplit` yields.
pub open spec fn last_piece(s: Seq<char>, sep: char) -> Seq<char> {
    split_on(s, sep).last()
}

pub proof fn lemma_split_on_nonempty(s: Seq<char>, sep: char)
    ensures
        split_on(s, sep).len() >= 1,
    decreases s.len(),
{
    if s.len() > 0 {
        lemma_split_on_nonempty(s.drop_last(), sep);
    }
}

/// The text after the last `sep` in `s`, or all of `s` where it has none.
pub fn last_piece_str(s: &str, sep: char) -> (piece: &str)
    ensures
        piece@ == last_piece(s@, sep),
{
    let pieces = split_str(s, sep);
    proof {
        lemma_split_on_nonempty(s@, sep);
    }
    assert(pieces@.len() == views_of(pieces@).len());
    let last = pieces[pieces.len() - 1];
    assert(last@ == views_of(pieces@)[pieces@.len() - 1]);
    last
}

/// Whether every character of `s` is ASCII.
pub open spec fn all_ascii(s: Seq<char>) -> bool {
    forall|i: int| 0 <= i < s.len() ==> (#[trigger] s[i] as u32) < 128
}

/// `c` with `a` to `z` made `A` to `Z`.
pub open spec fn ascii_upper_char(c: char) -> char {
    if 97 <= c as u32 <= 122 {
        (c as u32 - 32) as char
    } else {
        c
    }
}

/// `s` with `a` to `z` made `A` to `Z`.
pub open spec fn ascii_upper(s: Seq<char>) -> Seq<char> {
    s.map_values(|c: char| ascii_upper_char(c))
}

/// What `str::to_uppercase` returns for a text (the Unicode upper-case mapping).
pub uninterp spec fn upper_case(s: Seq<char>) -> Seq<char>;

/// Calls `str::to_uppercase`. Trusted: that the result is `upper_case` of the
/// argument, and that on an all-ASCII text it maps `a` to `z` onto `A` to `Z`
/// and keeps every other character, as its documentation says. What it does
/// to other characters is left to the name.
#[verifier::external_body]
pub(crate) fn to_upper_case(s: &str) -> (u: String)
    ensures
        u@ == upper_case(s@),
        all_ascii(s@) ==> u@ == ascii_upper(s@),
{
    s.to_uppercase()
}

/// Owned copies of the string slices, in order.
pub fn to_owned_all(pieces: &Vec<&str>) -> (owned: Vec<String>)
    ensures
        string_views(owned@) == views_of(pieces@),
{
    let mut owned: Vec<String> = Vec::new();
    let mut i: usize = 0;
    while i < pieces.len()
        invariant
            i <= pieces.len(),
            string_views(owned@) == views_of(pieces@).take(i as int),
        decreases pieces.len() - i,
    {
        let ghost before = string_views(owned@);
        owned.push(pieces[i].to_owned());
        assert(string_views(owned@) =~= before.push(pieces@[i as int]@));
        assert(views_of(pieces@).take(i + 1) =~= views_of(pieces@).take(i as int).push(
            pieces@[i as int]@,
        ));
        i = i + 1;
    }
    assert(views_of(pieces@).take(pieces.len() as int) =~= views_of(pieces@));
    owned
}

proof fn lemma_split_without_sep(y: Seq<char>, c: char)
    requires
        !y.contains(c),
    ensures
        split_on(y, c) == seq![y],
    decreases y.len(),
{
    if y.len() > 0 {
        assert(!y.drop_last().contains(c)) by {
            if y.drop_last().contains(c) {
                let k = choose|k: int| 0 <= k < y.drop_last().len() && y.drop_last()[k] == c;
                assert(y[k] == c);
            }
        }
        lemma_split_without_sep(y.drop_last(), c);
        assert(y.last() != c) by {
            assert(y[y.len() - 1] == y.last());
        }
        assert(y.drop_last().push(y.last()) =~= y);
        assert(split_on(y, c) =~= seq![y]);
    } else {
        assert(y =~= Seq::<char>::empty());
    }
}

proof fn lemma_split_concat(x: Seq<char>, y: Seq<char>, c: char)
    ensures
        split_on(x + seq![c] + y, c) == split_on(x, c) + split_on(y, c),
    decreases y.len(),
{
    let xc = x + seq![c];
    if y.len() == 0 {
        assert(xc + y =~= xc);
        assert(xc.drop_last() =~= x);
        assert(split_on(y, c) =~= seq![Seq::<char>::empty()]);
        assert(split_on(xc, c) =~= split_on(x, c) + split_on(y, c));
    } else {
        let y1 = y.drop_last();
        lemma_split_concat(x, y1, c);
        lemma_split_on_nonempty(y1, c);
        lemma_split_on_nonempty(x, c);
        assert((xc + y).drop_last() =~= xc + y1);
        assert((xc + y).last() == y.last());
        let a = split_on(x, c);
        let b = split_on(y1, c);
        if y.last() == c {
            assert((a + b).push(Seq::empty()) =~= a + b.push(Seq::empty()));
        } else {
            assert((a + b).update((a + b).len() - 1, (a + b).last().push(y.last())) =~= a + b.update(
                b.len() - 1,
                b.last().push(y.last()),
            ));
        }
    }
}

/// Splitting a join on its one-character separator gives back the parts,
/// where none of them holds the separator.
pub proof fn law_split_join(parts: Seq<Seq<char>>, c: char)
    requires
        parts.len() > 0,
        forall|i: int| 0 <= i < parts.len() ==> !(#[trigger] parts[i]).contains(c),
    ensures
        split_on(join(parts, seq![c]), c) == parts,
    decreases parts.len(),
{
    if parts.len() == 1 {
        lemma_split_without_sep(parts[0], c);
        assert(seq![parts[0]] =~= parts);
    } else {
        let d = parts.drop_last();
        assert forall|i: int| 0 <= i < d.len() implies !(#[trigger] d[i]).contains(c) by {
            assert(d[i] == parts[i]);
        }
        law_split_join(d, c);
        assert(!parts.last().contains(c)) by {
            assert(parts[parts.len() - 1] == parts.last());
        }
        lemma_split_without_sep(parts.last(), c);
        lemma_split_concat(join(d, seq![c]), parts.last(), c);
        assert(d + seq![parts.last()] =~= parts);
    }
}

proof fn lemma_split_pieces_lack_sep(x: Seq<char>, c: char)
    ensures
        forall|i: int| 0 <= i < split_on(x, c).len() ==> !(#[trigger] split_on(x, c)[i]).contains(c),
    decreases x.len(),
{
    if x.len() > 0 {
        lemma_split_pieces_lack_sep(x.drop_last(), c);
        lemma_split_on_nonempty(x.drop_last(), c);
        let p = split_on(x.drop_last(), c);
        if x.last() != c {
            let q = p.last().push(x.last());
            assert(!q.contains(c)) by {
                if q.contains(c) {
                    let k = choose|k: int| 0 <= k < q.len() && q[k] == c;
                    if k < p.last().len() {
                        assert(p[p.len() - 1] == p.last());
                        assert(p.last().contains(c));
                    }
                }
            }
            assert forall|i: int| 0 <= i < split_on(x, c).len() implies !(#[trigger] split_on(x, c)[i]).contains(c) by {
                if i < p.len() - 1 {
                    assert(split_on(x, c)[i] == p[i]);
                }
            }
        } else {
            assert forall|i: int| 0 <= i < split_on(x, c).len() implies !(#[trigger] split_on(x, c)[i]).contains(c) by {
                if i < p.len() {
                    assert(split_on(x, c)[i] == p[i]);
                } else {
                    assert(split_on(x, c)[i] =~= Seq::<char>::empty());
                }
            }
        }
    }
}

proof fn lemma_trim_start_suffix(s: Seq<char>)
    ensures
        exists|i: int| 0 <= i <= s.len() && trim_start(s) == s.subrange(i, s.len() as int),
        trim_start(s).len() > 0 ==> !is_ws(trim_start(s)[0]),
    decreases s.len(),
{
    if s.len() > 0 && is_ws(s[0]) {
        lemma_trim_start_suffix(s.drop_first());
        let i = choose|i: int| 0 <= i <= s.drop_first().len() && trim_start(s.drop_first()) == s.drop_first().subrange(i, s.drop_first().len() as int);
        assert(s.drop_first().subrange(i, s.drop_first().len() as int) =~= s.subrange(i + 1, s.len() as int));
    } else {
        assert(s.subrange(0, s.len() as int) =~= s);
    }
}

proof fn lemma_trim_end_prefix(s: Seq<char>)
    ensures
        exists|j: int| 0 <= j <= s.len() && trim_end(s) == s.subrange(0, j),
        trim_end(s).len() > 0 ==> !is_ws(trim_end(s).last()),
    decreases s.len(),
{
    if s.len() > 0 && is_ws(s.last()) {
        lemma_trim_end_prefix(s.drop_last());
        let j = choose|j: int| 0 <= j <= s.drop_last().len() && trim_end(s.drop_last()) == s.drop_last().subrange(0, j);
        assert(s.drop_last().subrange(0, j) =~= s.subrange(0, j));
    } else {
        assert(s.subrange(0, s.len() as int) =~= s);
    }
}

/// The trimmed text lies within the text, starts and ends with no whitespace,
/// and trimming it again changes nothing.
pub proof fn law_trim(s: Seq<char>)
    ensures
        exists|i: int, j: int| 0 <= i <= j <= s.len() && trim(s) == s.subrange(i, j),
        trim(s).len() > 0 ==> !is_ws(trim(s)[0]) && !is_ws(trim(s).last()),
        trim(trim(s)) == trim(s),
{
    lemma_trim_start_suffix(s);
    let t0 = trim_start(s);
    let i = choose|i: int| 0 <= i <= s.len() && t0 == s.subrange(i, s.len() as int);
    lemma_trim_end_prefix(t0);
    let t = trim_end(t0);
    let j = choose|j: int| 0 <= j <= t0.len() && t == t0.subrange(0, j);
    assert(t =~= s.subrange(i, i + j));
    if t.len() > 0 {
        assert(t[0] == t0[0]);
        assert(!is_ws(t[0]));
        assert(trim_start(t) == t);
        assert(trim_end(t) == t);
    } else {
        assert(trim_start(t) == t);
        assert(trim_end(t) == t);
    }
}

proof fn lemma_trimmed_nonempty_members(pieces: Seq<Seq<char>>)
    ensures
        forall|k: int| 0 <= k < trimmed_nonempty(pieces).len() ==> exists|i: int|
            0 <= i < pieces.len() && #[trigger] trimmed_nonempty(pieces)[k] == trim(pieces[i]),
        forall|k: int| 0 <= k < trimmed_nonempty(pieces).len() ==> (#[trigger] trimmed_nonempty(pieces)[k]).len() > 0,
    decreases pieces.len(),
{
    if pieces.len() > 0 {
        let d = pieces.drop_last();
        lemma_trimmed_nonempty_members(d);
        let r = trimmed_nonempty(d);
        assert forall|k: int| 0 <= k < trimmed_nonempty(pieces).len() implies exists|i: int|
            0 <= i < pieces.len() && #[trigger] trimmed_nonempty(pieces)[k] == trim(pieces[i]) by {
            if k < r.len() {
                assert(trimmed_nonempty(pieces)[k] == r[k]);
                let i = choose|i: int| 0 <= i < d.len() && #[trigger] r[k] == trim(d[i]);
                assert(d[i] == pieces[i]);
            } else {
                assert(trimmed_nonempty(pieces)[k] == trim(pieces[pieces.len() - 1]));
            }
        }
        assert forall|k: int| 0 <= k < trimmed_nonempty(pieces).len() implies (#[trigger] trimmed_nonempty(pieces)[k]).len() > 0 by {
            if k < r.len() {
                assert(trimmed_nonempty(pieces)[k] == r[k]);
            }
        }
    }
}

/// Each item that splitting at `c`, trimming and dropping empty pieces gives
/// is nonempty, holds no `c`, and has no whitespace at either end.
pub proof fn law_split_trimmed_items(s: Seq<char>, c: char)
    ensures
        forall|k: int| 0 <= k < trimmed_nonempty(split_on(s, c)).len() ==> {
            let t = #[trigger] trimmed_nonempty(split_on(s, c))[k];
            &&& t.len() > 0
            &&& !t.contains(c)
            &&& trim(t) == t
        },
{
    let pieces = split_on(s, c);
    lemma_trimmed_nonempty_members(pieces);
    lemma_split_pieces_lack_sep(s, c);
    assert forall|k: int| 0 <= k < trimmed_nonempty(pieces).len() implies {
        let t = #[trigger] trimmed_nonempty(pieces)[k];
        &&& t.len() > 0
        &&& !t.contains(c)
        &&& trim(t) == t
    } by {
        let t = trimmed_nonempty(pieces)[k];
        let i = choose|i: int| 0 <= i < pieces.len() && t == trim(pieces[i]);
        law_trim(pieces[i]);
        let (a, b) = choose|a: int, b: int| 0 <= a <= b <= pieces[i].len() && trim(pieces[i]) == pieces[i].subrange(a, b);
        if t.contains(c) {
            let m = choose|m: int| 0 <= m < t.len() && t[m] == c;
            assert(pieces[i][a + m] == c);
            assert(pieces[i].contains(c));
        }
    }
}

/// The pieces that are not empty, order kept.
pub open spec fn nonempty_pieces(pieces: Seq<Seq<char>>) -> Seq<Seq<char>>
    decreases pieces.len(),
{
    if pieces.len() == 0 {
        Seq::empty()
    } else {
        let rest = nonempty_pieces(pieces.drop_last());
        if pieces.last().len() > 0 {
            rest.push(pieces.last())
        } else {
            rest
        }
    }
}

/// Whether the only whitespace in `s` is the space.
pub open spec fn only_spaces_white(s: Seq<char>) -> bool {
    forall|k: int| 0 <= k < s.len() && is_ws(#[trigger] s[k]) ==> s[k] == ' '
}

proof fn lemma_nonempty_pieces_concat(a: Seq<Seq<char>>, b: Seq<Seq<char>>)
    ensures
        nonempty_pieces(a + b) == nonempty_pieces(a) + nonempty_pieces(b),
    decreases b.len(),
{
    if b.len() == 0 {
        assert(a + b =~= a);
        assert(nonempty_pieces(a) + nonempty_pieces(b) =~= nonempty_pieces(a));
    } else {
        lemma_nonempty_pieces_concat(a, b.drop_last());
        assert((a + b).drop_last() =~= a + b.drop_last());
        assert((a + b).last() == b.last());
        if b.last().len() > 0 {
            assert((nonempty_pieces(a) + nonempty_pieces(b.drop_last())).push(b.last()) =~= nonempty_pieces(a)
                + nonempty_pieces(b.drop_last()).push(b.last()));
        }
    }
}

proof fn lemma_trimmed_is_nonempty(p: Seq<Seq<char>>)
    requires
        forall|i: int| 0 <= i < p.len() ==> trim(#[trigger] p[i]) == p[i],
    ensures
        trimmed_nonempty(p) == nonempty_pieces(p),
    decreases p.len(),
{
    if p.len() > 0 {
        let d = p.drop_last();
        assert forall|i: int| 0 <= i < d.len() implies trim(#[trigger] d[i]) == d[i] by {
            assert(d[i] == p[i]);
        }
        lemma_trimmed_is_nonempty(d);
        assert(p[p.len() - 1] == p.last());
    }
}

proof fn lemma_trimmed_words(p: Seq<Seq<char>>)
    requires
        forall|i: int| 0 <= i < p.len() ==> trim(#[trigger] p[i]) == p[i] && p[i].len() > 0,
    ensures
        trimmed_nonempty(p) == p,
    decreases p.len(),
{
    if p.len() > 0 {
        let d = p.drop_last();
        assert forall|i: int| 0 <= i < d.len() implies trim(#[trigger] d[i]) == d[i] && d[i].len() > 0 by {
            assert(d[i] == p[i]);
        }
        lemma_trimmed_words(d);
        assert(p[p.len() - 1] == p.last());
        assert(d.push(p.last()) =~= p);
    }
}

proof fn lemma_no_ws_trim(t: Seq<char>)
    requires
        forall|k: int| 0 <= k < t.len() ==> !is_ws(#[trigger] t[k]),
    ensures
        trim(t) == t,
{
    if t.len() > 0 {
        assert(!is_ws(t[0]));
        assert(trim_start(t) == t);
        assert(t[t.len() - 1] == t.last());
        assert(trim_end(t) == t);
    } else {
        assert(trim_start(t) == t);
        assert(trim_end(t) == t);
    }
}

proof fn lemma_split_pieces_from(x: Seq<char>, c: char)
    ensures
        forall|i: int, k: int|
            0 <= i < split_on(x, c).len() && 0 <= k < split_on(x, c)[i].len() ==> x.contains(
                #[trigger] split_on(x, c)[i][k],
            ),
    decreases x.len(),
{
    if x.len() > 0 {
        let d = x.drop_last();
        lemma_split_pieces_from(d, c);
        lemma_split_on_nonempty(d, c);
        let p = split_on(d, c);
        let q = split_on(x, c);
        assert forall|i: int, k: int| 0 <= i < q.len() && 0 <= k < q[i].len() implies x.contains(
            #[trigger] q[i][k],
        ) by {
            if i < p.len() - 1 || (x.last() == c && i < p.len()) {
                assert(q[i] == p[i]);
                assert(d.contains(p[i][k]));
                let m = choose|m: int| 0 <= m < d.len() && d[m] == p[i][k];
                assert(x[m] == d[m]);
            } else if x.last() != c {
                assert(q[i] == p.last().push(x.last()));
                if k < p.last().len() {
                    assert(q[i][k] == p[p.len() - 1][k]);
                    assert(d.contains(p[p.len() - 1][k]));
                    let m = choose|m: int| 0 <= m < d.len() && d[m] == p[p.len() - 1][k];
                    assert(x[m] == d[m]);
                } else {
                    assert(q[i][k] == x.last());
                    assert(x[x.len() - 1] == x.last());
                }
            } else {
                assert(q[i] =~= Seq::<char>::empty());
            }
        }
    }
}

/// Where the only whitespace in `x` is the space, the pieces of `x` between
/// spaces have no whitespace, so trimming them changes nothing.
proof fn lemma_space_pieces_trimmed(x: Seq<char>)
    requires
        only_spaces_white(x),
    ensures
        trimmed_nonempty(split_on(x, ' ')) == nonempty_pieces(split_on(x, ' ')),
{
    let p = split_on(x, ' ');
    lemma_split_pieces_from(x, ' ');
    lemma_split_pieces_lack_sep(x, ' ');
    assert forall|i: int| 0 <= i < p.len() implies trim(#[trigger] p[i]) == p[i] by {
        assert forall|k: int| 0 <= k < p[i].len() implies !is_ws(#[trigger] p[i][k]) by {
            assert(x.contains(p[i][k]));
            let m = choose|m: int| 0 <= m < x.len() && x[m] == p[i][k];
            if is_ws(p[i][k]) {
                assert(x[m] == ' ');
                assert(p[i].contains(' '));
            }
        }
        lemma_no_ws_trim(p[i]);
    }
    lemma_trimmed_is_nonempty(p);
}

proof fn lemma_no_pieces_of_empty(c: char)
    ensures
        split_on(Seq::<char>::empty(), c) == seq![Seq::<char>::empty()],
        nonempty_pieces(split_on(Seq::<char>::empty(), c)) == Seq::<Seq<char>>::empty(),
        trimmed_nonempty(split_on(Seq::<char>::empty(), c)) == Seq::<Seq<char>>::empty(),
{
    let e = Seq::<char>::empty();
    let p = seq![e];
    assert(split_on(e, c) == p);
    assert(p.drop_last() =~= Seq::<Seq<char>>::empty());
    assert(p.last() == e);
    assert(nonempty_pieces(p.drop_last()) == Seq::<Seq<char>>::empty());
    assert(trimmed_nonempty(p.drop_last()) == Seq::<Seq<char>>::empty());
    assert(trim_start(e) == e);
    assert(trim_end(e) == e);
    assert(trim(p.last()).len() == 0);
}

proof fn lemma_trim_start_spaces(s: Seq<char>)
    requires
        only_spaces_white(s),
    ensures
        nonempty_pieces(split_on(trim_start(s), ' ')) == nonempty_pieces(split_on(s, ' ')),
        only_spaces_white(trim_start(s)),
    decreases s.len(),
{
    if s.len() > 0 && is_ws(s[0]) {
        let rest = s.drop_first();
        assert(only_spaces_white(rest)) by {
            assert forall|k: int| 0 <= k < rest.len() && is_ws(#[trigger] rest[k]) implies rest[k] == ' ' by {
                assert(rest[k] == s[k + 1]);
            }
        }
        lemma_trim_start_spaces(rest);
        assert(s[0] == ' ');
        assert(Seq::<char>::empty() + seq![' '] + rest =~= s);
        lemma_split_concat(Seq::<char>::empty(), rest, ' ');
        lemma_nonempty_pieces_concat(split_on(Seq::<char>::empty(), ' '), split_on(rest, ' '));
        lemma_no_pieces_of_empty(' ');
        assert(Seq::<Seq<char>>::empty() + nonempty_pieces(split_on(rest, ' ')) =~= nonempty_pieces(split_on(rest, ' ')));
    }
}

proof fn lemma_trim_end_spaces(s: Seq<char>)
    requires
        only_spaces_white(s),
    ensures
        nonempty_pieces(split_on(trim_end(s), ' ')) == nonempty_pieces(split_on(s, ' ')),
    decreases s.len(),
{
    if s.len() > 0 && is_ws(s.last()) {
        let rest = s.drop_last();
        assert(only_spaces_white(rest)) by {
            assert forall|k: int| 0 <= k < rest.len() && is_ws(#[trigger] rest[k]) implies rest[k] == ' ' by {
                assert(rest[k] == s[k]);
            }
        }
        lemma_trim_end_spaces(rest);
        assert(s[s.len() - 1] == s.last());
        assert(rest + seq![' '] + Seq::<char>::empty() =~= s);
        lemma_split_concat(rest, Seq::<char>::empty(), ' ');
        lemma_nonempty_pieces_concat(split_on(rest, ' '), split_on(Seq::<char>::empty(), ' '));
        lemma_no_pieces_of_empty(' ');
        assert(nonempty_pieces(split_on(rest, ' ')) + Seq::<Seq<char>>::empty() =~= nonempty_pieces(split_on(rest, ' ')));
    }
}

/// Where the only whitespace in `s` is the space, splitting its trimmed text
/// at spaces, trimming the pieces and dropping the empty ones gives the
/// nonempty pieces between the spaces of `s`: its space-separated words.
pub proof fn law_space_words(s: Seq<char>)
    requires
        only_spaces_white(s),
    ensures
        trimmed_nonempty(split_on(trim(s), ' ')) == nonempty_pieces(split_on(s, ' ')),
{
    lemma_trim_start_spaces(s);
    lemma_trim_end_spaces(trim_start(s));
    lemma_trim_end_prefix(trim_start(s));
    let t0 = trim_start(s);
    let j = choose|j: int| 0 <= j <= t0.len() && trim_end(t0) == t0.subrange(0, j);
    assert(only_spaces_white(trim(s))) by {
        assert forall|k: int| 0 <= k < trim(s).len() && is_ws(#[trigger] trim(s)[k]) implies trim(s)[k] == ' ' by {
            assert(trim(s)[k] == t0[k]);
        }
    }
    lemma_space_pieces_trimmed(trim(s));
}

proof fn lemma_join_ends(parts: Seq<Seq<char>>, sep: Seq<char>)
    requires
        parts.len() > 0,
        forall|i: int| 0 <= i < parts.len() ==> (#[trigger] parts[i]).len() > 0,
    ensures
        join(parts, sep).len() > 0,
        join(parts, sep)[0] == parts[0][0],
        join(parts, sep).last() == parts.last().last(),
    decreases parts.len(),
{
    if parts.len() > 1 {
        let d = parts.drop_last();
        assert forall|i: int| 0 <= i < d.len() implies (#[trigger] d[i]).len() > 0 by {
            assert(d[i] == parts[i]);
        }
        lemma_join_ends(d, sep);
        assert(parts[parts.len() - 1] == parts.last());
        let j = join(d, sep) + sep + parts.last();
        assert(j[0] == join(d, sep)[0]);
        assert(j.last() == parts.last()[parts.last().len() - 1]);
    }
}

proof fn lemma_joined_words_trimmed(words: Seq<Seq<char>>)
    requires
        words.len() > 0,
        forall|i: int| 0 <= i < words.len() ==> {
            &&& (#[trigger] words[i]).len() > 0
            &&& trim(words[i]) == words[i]
        },
    ensures
        trim(join(words, seq![' '])) == join(words, seq![' ']),
{
    let j = join(words, seq![' ']);
    let w0 = words[0];
    let wl = words[words.len() - 1];
    assert(!is_ws(w0[0])) by {
        law_trim(w0);
    }
    assert(!is_ws(wl[wl.len() - 1])) by {
        law_trim(wl);
        assert(wl.last() == wl[wl.len() - 1]);
    }
    assert(j.len() > 0 && j[0] == w0[0] && j.last() == wl[wl.len() - 1]) by {
        lemma_join_ends(words, seq![' ']);
        assert(words.last() == wl);
    }
    assert(trim_start(j) == j);
    assert(j[j.len() - 1] == j.last());
    assert(trim_end(j) == j);
}

/// Joining words (nonempty, without a space, trimmed) with single spaces and
/// then splitting at spaces, trimming and dropping empty pieces gives the
/// words back.
pub proof fn law_words_round_trip(words: Seq<Seq<char>>)
    requires
        forall|i: int| 0 <= i < words.len() ==> {
            &&& (#[trigger] words[i]).len() > 0
            &&& !words[i].contains(' ')
            &&& trim(words[i]) == words[i]
        },
    ensures
        trimmed_nonempty(split_on(trim(join(words, seq![' '])), ' ')) == words,
{
    let j = join(words, seq![' ']);
    if words.len() == 0 {
        assert(j == Seq::<char>::empty());
        assert(trim_start(j) == j);
        assert(trim_end(j) == j);
        lemma_no_pieces_of_empty(' ');
    } else {
        lemma_joined_words_trimmed(words);
        law_split_join(words, ' ');
        lemma_trimmed_words(words);
    }
}

/// Whether two texts are equal.
pub fn str_eq(a: &str, b: &str) -> (eq: bool)
    ensures
        eq == (a@ == b@),
{
    let x = chars_of(a);
    let y = chars_of(b);
    if x.len() != y.len() {
        return false;
    }
    let mut i: usize = 0;
    while i < x.len()
        invariant
            x@ == a@,
            y@ == b@,
            x.len() == y.len(),
            i <= x.len(),
            forall|k: int| 0 <= k < i ==> x@[k] == y@[k],
        decreases x.len() - i,
    {
        if x[i] != y[i] {
            return false;
        }
        i = i + 1;
    }
    assert(a@ =~= b@);
    true
}

} // verus!
