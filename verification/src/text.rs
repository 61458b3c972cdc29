//! Text operations over sequences of characters.
use vstd::prelude::*;
use vstd::string::*;

verus! {

/// `String::push`: appends one character to the end of the string.
pub assume_specification[ String::push ](s: &mut String, c: char)
    ensures
        final(s)@ == old(s)@.push(c),
;

/// `==` on string slices: two slices are equal when they hold the same characters.
pub assume_specification[ <str as PartialEq<str>>::eq ](a: &str, b: &str) -> (r: bool)
    ensures
        r == (a@ == b@),
;

/// The views of a list of strings.
pub open spec fn views(list: Seq<String>) -> Seq<Seq<char>> {
    list.map_values(|s: String| s@)
}

/// The view of an optional string.
pub open spec fn view_option(s: Option<String>) -> Option<Seq<char>> {
    match s {
        Some(text) => Some(text@),
        None => None,
    }
}

/// The view of an optional text.
pub open spec fn text_view(text: Option<&str>) -> Option<Seq<char>> {
    match text {
        Some(t) => Some(t@),
        None => None,
    }
}

/// The characters of a text as a vector.
pub fn chars_of(s: &str) -> (r: Vec<char>)
    ensures
        r@ == s@,
{
    let mut out: Vec<char> = Vec::new();
    for c in it: s.chars()
        invariant
            it.seq() == s@,
            out@ == s@.take(it.index() as int),
    {
        out.push(c);
        assert(s@.take(it.index() + 1) =~= s@.take(it.index() as int).push(c));
    }
    assert(s@.take(s@.len() as int) =~= s@);
    out
}

/// The text made of the characters `from..to`.
pub fn text_of(chars: &Vec<char>, from: usize, to: usize) -> (r: String)
    requires
        from <= to <= chars@.len(),
    ensures
        r@ == chars@.subrange(from as int, to as int),
{
    let mut out = String::new();
    let mut i: usize = from;
    while i < to
        invariant
            from <= i <= to <= chars@.len(),
            out@ == chars@.subrange(from as int, i as int),
        decreases to - i,
    {
        out.push(chars[i]);
        assert(chars@.subrange(from as int, i + 1) =~= chars@.subrange(from as int, i as int).push(
            chars@[i as int],
        ));
        i = i + 1;
    }
    out
}

/// Three texts, one after the other.
pub fn concat3(a: &str, b: &str, c: &str) -> (r: String)
    ensures
        r@ == a@ + b@ + c@,
{
    let mut out = String::new();
    out.append(a);
    out.append(b);
    out.append(c);
    assert(out@ =~= a@ + b@ + c@);
    out
}

/// The copy of an optional string.
pub fn copy_option(s: &Option<String>) -> (r: Option<String>)
    ensures
        r == *s,
{
    match s {
        Some(text) => Some(text.clone()),
        None => None,
    }
}

/// The copy of a list of strings.
pub fn copy_list(list: &Vec<String>) -> (r: Vec<String>)
    ensures
        r@ == list@,
{
    let mut out: Vec<String> = Vec::new();
    for i in 0..list.len()
        invariant
            out@ == list@.take(i as int),
    {
        out.push(list[i].clone());
        assert(list@.take(i + 1) =~= list@.take(i as int).push(list@[i as int]));
    }
    assert(list@.take(list@.len() as int) =~= list@);
    out
}

// ---------------------------------------------------------------------------
// White space

/// The characters with the Unicode property `White_Space`.
pub open spec fn is_white_space(c: char) -> bool {
    let n = c as u32;
    ||| 0x9 <= n <= 0xd
    ||| n == 0x20
    ||| n == 0x85
    ||| n == 0xa0
    ||| n == 0x1680
    ||| 0x2000 <= n <= 0x200a
    ||| n == 0x2028
    ||| n == 0x2029
    ||| n == 0x202f
    ||| n == 0x205f
    ||| n == 0x3000
}

/// Whether a character is white space.
pub fn white_space(c: char) -> (r: bool)
    ensures
        r == is_white_space(c),
{
    let n = c as u32;
    (0x9 <= n && n <= 0xd) || n == 0x20 || n == 0x85 || n == 0xa0 || n == 0x1680 || (0x2000 <= n
        && n <= 0x200a) || n == 0x2028 || n == 0x2029 || n == 0x202f || n == 0x205f || n == 0x3000
}

/// `s` without its leading white space.
pub open spec fn trimmed_start(s: Seq<char>) -> Seq<char>
    decreases s.len(),
{
    if s.len() > 0 && is_white_space(s.first()) {
        trimmed_start(s.drop_first())
    } else {
        s
    }
}

/// `s` without its trailing white space.
pub open spec fn trimmed_end(s: Seq<char>) -> Seq<char>
    decreases s.len(),
{
    if s.len() > 0 && is_white_space(s.last()) {
        trimmed_end(s.drop_last())
    } else {
        s
    }
}

/// `s` without its leading and trailing white space.
pub open spec fn trimmed(s: Seq<char>) -> Seq<char> {
    trimmed_end(trimmed_start(s))
}

proof fn lemma_trimmed_start(s: Seq<char>, i: int)
    requires
        0 <= i <= s.len(),
        forall|j: int| 0 <= j < i ==> is_white_space(#[trigger] s[j]),
        i < s.len() ==> !is_white_space(s[i]),
    ensures
        trimmed_start(s) == s.skip(i),
    decreases i,
{
    if i > 0 {
        assert(is_white_space(s[0]));
        let t = s.drop_first();
        assert forall|j: int| 0 <= j < i - 1 implies is_white_space(#[trigger] t[j]) by {
            assert(t[j] == s[j + 1]);
        }
        lemma_trimmed_start(t, i - 1);
        assert(t.skip(i - 1) =~= s.skip(i));
    } else {
        assert(s.skip(0) =~= s);
    }
}

proof fn lemma_trimmed_end(s: Seq<char>, i: int)
    requires
        0 <= i <= s.len(),
        forall|j: int| i <= j < s.len() ==> is_white_space(#[trigger] s[j]),
        i > 0 ==> !is_white_space(s[i - 1]),
    ensures
        trimmed_end(s) == s.take(i),
    decreases s.len() - i,
{
    if i < s.len() {
        assert(is_white_space(s[s.len() - 1]));
        let t = s.drop_last();
        lemma_trimmed_end(t, i);
        assert(t.take(i) =~= s.take(i));
    } else {
        assert(s.take(i) =~= s);
    }
}

/// `str::trim`: the text without leading and trailing white space.
pub fn trim(s: &str) -> (r: String)
    ensures
        r@ == trimmed(s@),
{
    let chars = chars_of(s);
    let n = chars.len();
    let mut from: usize = 0;
    while from < n && white_space(chars[from])
        invariant
            n == chars@.len(),
            from <= n,
            forall|j: int| 0 <= j < from ==> is_white_space(#[trigger] chars@[j]),
        decreases n - from,
    {
        from = from + 1;
    }
    proof {
        lemma_trimmed_start(chars@, from as int);
    }
    let ghost rest = chars@.skip(from as int);
    let mut to: usize = n;
    while to > from && white_space(chars[to - 1])
        invariant
            n == chars@.len(),
            from <= to <= n,
            forall|j: int| to <= j < n ==> is_white_space(#[trigger] chars@[j]),
        decreases to,
    {
        to = to - 1;
    }
    proof {
        assert forall|j: int| to - from <= j < rest.len() implies is_white_space(
            #[trigger] rest[j],
        ) by {
            assert(rest[j] == chars@[j + from]);
        }
        if to > from {
            assert(rest[to - from - 1] == chars@[to - 1]);
        }
        lemma_trimmed_end(rest, to - from);
        assert(rest.take(to - from) =~= chars@.subrange(from as int, to as int));
    }
    text_of(&chars, from, to)
}

/// Whether nothing but white space is in a text.
pub open spec fn blank(s: Seq<char>) -> bool {
    forall|i: int| 0 <= i < s.len() ==> is_white_space(#[trigger] s[i])
}

/// A text is blank exactly when nothing is left of it after trimming.
pub proof fn blank_is_trimmed_empty(s: Seq<char>)
    ensures
        blank(s) <==> trimmed(s).len() == 0,
    decreases s.len(),
{
    if s.len() > 0 {
        if is_white_space(s[0]) {
            let t = s.drop_first();
            blank_is_trimmed_empty(t);
            if blank(s) {
                assert forall|i: int| 0 <= i < t.len() implies is_white_space(#[trigger] t[i]) by {
                    assert(t[i] == s[i + 1]);
                }
            }
            if blank(t) {
                assert forall|i: int| 0 <= i < s.len() implies is_white_space(#[trigger] s[i]) by {
                    if i > 0 {
                        assert(s[i] == t[i - 1]);
                    }
                }
            }
        } else {
            assert(trimmed_start(s) == s);
            lemma_trimmed_end_keeps_first(s);
        }
    }
}

proof fn lemma_trimmed_end_keeps_first(s: Seq<char>)
    requires
        s.len() > 0,
        !is_white_space(s[0]),
    ensures
        trimmed_end(s).len() > 0,
    decreases s.len(),
{
    if is_white_space(s.last()) {
        assert(s.len() > 1);
        lemma_trimmed_end_keeps_first(s.drop_last());
    }
}

/// `s.trim().is_empty()`: whether a line holds nothing but white space.
pub fn is_blank(s: &str) -> (r: bool)
    ensures
        r == blank(s@),
        r == (trimmed(s@).len() == 0),
{
    proof {
        blank_is_trimmed_empty(s@);
    }
    for c in it: s.chars()
        invariant
            it.seq() == s@,
            blank(s@) <==> trimmed(s@).len() == 0,
            forall|j: int| 0 <= j < it.index() ==> is_white_space(#[trigger] s@[j]),
    {
        if !white_space(c) {
            assert(s@[it.index() as int] == c);
            return false;
        }
    }
    true
}

// ---------------------------------------------------------------------------
// Searching

/// Whether `part` stands in `s` from index `i` on.
pub open spec fn stands_at(s: Seq<char>, i: int, part: Seq<char>) -> bool {
    0 <= i && i + part.len() <= s.len() && s.subrange(i, i + part.len()) == part
}

/// Whether `part` stands in `chars` from index `i` on.
pub fn found_at(chars: &Vec<char>, i: usize, part: &Vec<char>) -> (r: bool)
    requires
        i <= chars@.len(),
    ensures
        r == stands_at(chars@, i as int, part@),
{
    let n: usize = chars.len();
    if part.len() > n - i {
        return false;
    }
    let mut k: usize = 0;
    while k < part.len()
        invariant
            n == chars@.len(),
            i + part@.len() <= n,
            k <= part@.len(),
            forall|j: int| 0 <= j < k ==> chars@[i + j] == #[trigger] part@[j],
        decreases part@.len() - k,
    {
        if chars[i + k] != part[k] {
            assert(chars@.subrange(i as int, i + part@.len())[k as int] != part@[k as int]);
            return false;
        }
        k = k + 1;
    }
    assert(chars@.subrange(i as int, i + part@.len()) =~= part@);
    true
}

/// `str::starts_with`.
pub fn starts_with(s: &str, part: &str) -> (r: bool)
    ensures
        r == part@.is_prefix_of(s@),
{
    let chars = chars_of(s);
    let wanted = chars_of(part);
    let r = found_at(&chars, 0, &wanted);
    assert(part@.is_prefix_of(s@) <==> part@.len() <= s@.len() && part@ == s@.subrange(
        0,
        part@.len() as int,
    ));
    r
}

/// `str::ends_with`.
pub fn ends_with(s: &str, part: &str) -> (r: bool)
    ensures
        r == part@.is_suffix_of(s@),
{
    let chars = chars_of(s);
    let wanted = chars_of(part);
    if wanted.len() > chars.len() {
        return false;
    }
    found_at(&chars, chars.len() - wanted.len(), &wanted)
}

/// `str::contains` with one character.
pub fn contains_char(s: &str, wanted: char) -> (r: bool)
    ensures
        r == s@.contains(wanted),
{
    for c in it: s.chars()
        invariant
            it.seq() == s@,
            forall|j: int| 0 <= j < it.index() ==> #[trigger] s@[j] != wanted,
    {
        if c == wanted {
            assert(s@[it.index() as int] == wanted);
            return true;
        }
    }
    false
}

/// The index of the first `x` in `s`, or the length of `s` where there is none.
pub open spec fn position<A>(s: Seq<A>, x: A) -> int
    decreases s.len(),
{
    if s.len() == 0 || s[0] == x {
        0
    } else {
        1 + position(s.drop_first(), x)
    }
}

/// What [`position`] is, without the recursion.
pub proof fn lemma_position<A>(s: Seq<A>, x: A, i: int)
    requires
        0 <= i <= s.len(),
        forall|j: int| 0 <= j < i ==> #[trigger] s[j] != x,
        i < s.len() ==> s[i] == x,
    ensures
        position(s, x) == i,
    decreases i,
{
    if i > 0 {
        assert(s[0] != x);
        let t = s.drop_first();
        assert forall|j: int| 0 <= j < i - 1 implies #[trigger] t[j] != x by {
            assert(t[j] == s[j + 1]);
        }
        lemma_position(t, x, i - 1);
    }
}

/// Where the first `x` is.
pub proof fn lemma_position_is_first<A>(s: Seq<A>, x: A)
    ensures
        0 <= position(s, x) <= s.len(),
        forall|j: int| 0 <= j < position(s, x) ==> #[trigger] s[j] != x,
        position(s, x) < s.len() ==> s[position(s, x)] == x,
    decreases s.len(),
{
    if s.len() > 0 && s[0] != x {
        let t = s.drop_first();
        lemma_position_is_first(t, x);
        assert forall|j: int| 0 <= j < position(s, x) implies #[trigger] s[j] != x by {
            if j > 0 {
                assert(s[j] == t[j - 1]);
            }
        }
        if position(s, x) < s.len() {
            assert(t[position(t, x)] == s[position(s, x)]);
        }
    }
}

// ---------------------------------------------------------------------------
// Lines

/// A line without the carriage return that ends it, if there is one.
pub open spec fn without_return(s: Seq<char>) -> Seq<char> {
    if s.len() > 0 && s.last() == '\r' {
        s.drop_last()
    } else {
        s
    }
}

/// The lines of a text: cut at each line feed, a carriage return before the line feed belongs
/// to the line ending, and the last line needs no ending.
pub open spec fn lines_of(s: Seq<char>) -> Seq<Seq<char>>
    decreases s.len(),
{
    if s.len() == 0 {
        seq![]
    } else {
        let i = position(s, '\n');
        if 0 <= i < s.len() {
            seq![without_return(s.take(i))] + lines_of(s.skip(i + 1))
        } else {
            seq![s]
        }
    }
}

/// The first line of a text ends at the first line feed, and the other lines are those of the
/// rest; a text without a line feed is one line.
pub proof fn lemma_first_line(s: Seq<char>, i: int)
    requires
        0 <= i <= s.len(),
        s.len() > 0,
        forall|j: int| 0 <= j < i ==> #[trigger] s[j] != '\n',
        i < s.len() ==> s[i] == '\n',
    ensures
        i < s.len() ==> lines_of(s) == seq![without_return(s.take(i))] + lines_of(s.skip(i + 1)),
        i == s.len() ==> lines_of(s) == seq![s],
{
    lemma_position(s, '\n', i);
}

/// `str::lines`.
pub fn lines(s: &str) -> (r: Vec<String>)
    ensures
        views(r@) == lines_of(s@),
{
    let chars = chars_of(s);
    let n = chars.len();
    let mut out: Vec<String> = Vec::new();
    let mut start: usize = 0;
    assert(chars@.skip(0) =~= chars@);
    while start < n
        invariant
            n == chars@.len(),
            start <= n,
            views(out@) + lines_of(chars@.skip(start as int)) == lines_of(chars@),
        decreases n - start,
    {
        let ghost rest = chars@.skip(start as int);
        let mut end: usize = start;
        while end < n && chars[end] != '\n'
            invariant
                n == chars@.len(),
                start <= end <= n,
                rest == chars@.skip(start as int),
                forall|j: int| 0 <= j < end - start ==> #[trigger] rest[j] != '\n',
            decreases n - end,
        {
            assert(rest[end - start] == chars@[end as int]);
            end = end + 1;
        }
        proof {
            if end < n {
                assert(rest[end - start] == chars@[end as int]);
            }
            lemma_position(rest, '\n', end - start);
        }
        let ghost before = views(out@);
        if end < n {
            let stop = if end > start && chars[end - 1] == '\r' {
                end - 1
            } else {
                end
            };
            let line = text_of(&chars, start, stop);
            proof {
                let head = rest.take(end - start);
                if end > start {
                    assert(head.last() == chars@[end - 1]);
                }
                assert(line@ =~= without_return(head));
                assert(rest.skip(end - start + 1) =~= chars@.skip(end + 1));
            }
            out.push(line);
            assert(views(out@) =~= before.push(line@));
            assert(views(out@) + lines_of(chars@.skip(end + 1)) =~= before + (seq![line@]
                + lines_of(chars@.skip(end + 1))));
            start = end + 1;
        } else {
            let line = text_of(&chars, start, n);
            assert(line@ =~= rest);
            out.push(line);
            assert(views(out@) =~= before.push(line@));
            assert(chars@.skip(n as int) =~= Seq::<char>::empty());
            assert(views(out@) + lines_of(chars@.skip(n as int)) =~= before + seq![rest]);
            start = n;
        }
    }
    assert(chars@.skip(n as int) =~= Seq::<char>::empty());
    assert(views(out@) + lines_of(chars@.skip(n as int)) =~= views(out@));
    out
}

/// A list of texts with `sep` between two neighbours.
pub open spec fn joined(list: Seq<Seq<char>>, sep: Seq<char>) -> Seq<char>
    decreases list.len(),
{
    if list.len() == 0 {
        seq![]
    } else if list.len() == 1 {
        list[0]
    } else {
        joined(list.drop_last(), sep) + sep + list.last()
    }
}

/// `[String]::join`.
pub fn join(list: &Vec<String>, sep: &str) -> (r: String)
    ensures
        r@ == joined(views(list@), sep@),
{
    let mut out = String::new();
    let ghost all = views(list@);
    for i in 0..list.len()
        invariant
            all == views(list@),
            out@ == joined(all.take(i as int), sep@),
    {
        let ghost next = all.take(i + 1);
        assert(next.drop_last() =~= all.take(i as int));
        assert(next.last() == list@[i as int]@);
        if i > 0 {
            out.append(sep);
        }
        out.append(list[i].as_str());
        proof {
            if i == 0 {
                assert(out@ =~= next[0]);
            }
        }
    }
    assert(all.take(list@.len() as int) =~= all);
    out
}

// ---------------------------------------------------------------------------
// Replacing

/// `s` with every occurrence of `from`, taken from the left without overlap, replaced by `to`.
pub open spec fn replaced(s: Seq<char>, from: Seq<char>, to: Seq<char>) -> Seq<char>
    decreases s.len(),
{
    if from.len() == 0 || s.len() < from.len() {
        s
    } else if stands_at(s, 0, from) {
        to + replaced(s.skip(from.len() as int), from, to)
    } else {
        seq![s[0]] + replaced(s.drop_first(), from, to)
    }
}

/// `str::replace` with a pattern that is not empty.
pub fn replace(s: &str, from: &str, to: &str) -> (r: String)
    requires
        from@.len() > 0,
    ensures
        r@ == replaced(s@, from@, to@),
{
    let chars = chars_of(s);
    let pattern = chars_of(from);
    let n = chars.len();
    let m = pattern.len();
    let mut out = String::new();
    let mut i: usize = 0;
    assert(chars@.skip(0) =~= chars@);
    while i < n && m <= n - i
        invariant
            n == chars@.len(),
            m == pattern@.len(),
            m > 0,
            pattern@ == from@,
            i <= n,
            out@ + replaced(chars@.skip(i as int), from@, to@) == replaced(chars@, from@, to@),
        decreases n - i,
    {
        let ghost rest = chars@.skip(i as int);
        let ghost before = out@;
        assert(rest.subrange(0, m as int) =~= chars@.subrange(i as int, i + m));
        if found_at(&chars, i, &pattern) {
            out.append(to);
            assert(rest.skip(m as int) =~= chars@.skip(i + m));
            assert(out@ + replaced(chars@.skip(i + m), from@, to@) =~= before + (to@ + replaced(
                chars@.skip(i + m),
                from@,
                to@,
            )));
            i = i + m;
        } else {
            out.push(chars[i]);
            assert(rest.drop_first() =~= chars@.skip(i + 1));
            assert(out@ + replaced(chars@.skip(i + 1), from@, to@) =~= before + (seq![rest[0]]
                + replaced(chars@.skip(i + 1), from@, to@)));
            i = i + 1;
        }
    }
    let tail = text_of(&chars, i, n);
    let ghost before = out@;
    out.append(tail.as_str());
    assert(tail@ =~= chars@.skip(i as int));
    out
}

/// `s` without the `c` characters that end it.
pub open spec fn without_trailing(s: Seq<char>, c: char) -> Seq<char>
    decreases s.len(),
{
    if s.len() > 0 && s.last() == c {
        without_trailing(s.drop_last(), c)
    } else {
        s
    }
}

/// `str::trim_end_matches` with one character.
pub fn trim_end_char(s: &str, c: char) -> (r: String)
    ensures
        r@ == without_trailing(s@, c),
{
    let chars = chars_of(s);
    let mut to: usize = chars.len();
    assert(chars@.take(to as int) =~= chars@);
    while to > 0 && chars[to - 1] == c
        invariant
            to <= chars@.len(),
            without_trailing(chars@.take(to as int), c) == without_trailing(chars@, c),
        decreases to,
    {
        assert(chars@.take(to as int).drop_last() =~= chars@.take(to - 1));
        to = to - 1;
    }
    assert(to > 0 ==> chars@.take(to as int).last() == chars@[to - 1]);
    assert(chars@.subrange(0, to as int) =~= chars@.take(to as int));
    text_of(&chars, 0, to)
}

/// The first `limit` characters of a text.
pub fn take_chars(s: &str, limit: usize) -> (r: String)
    ensures
        r@ == (if s@.len() <= limit {
            s@
        } else {
            s@.take(limit as int)
        }),
{
    let mut out = String::new();
    let mut count: usize = 0;
    for c in it: s.chars()
        invariant
            it.seq() == s@,
            count == it.index(),
            count <= limit,
            out@ == s@.take(count as int),
    {
        if count == limit {
            return out;
        }
        out.push(c);
        count = count + 1;
        assert(s@.take(count as int) =~= s@.take(count - 1).push(c));
    }
    assert(s@.take(s@.len() as int) =~= s@);
    out
}

/// Whether a text has more than `limit` characters.
pub fn longer_than(s: &str, limit: usize) -> (r: bool)
    ensures
        r == (s@.len() > limit),
{
    let mut count: usize = 0;
    for c in it: s.chars()
        invariant
            it.seq() == s@,
            count == it.index(),
            count <= limit,
    {
        if count == limit {
            return true;
        }
        count = count + 1;
    }
    false
}

// ---------------------------------------------------------------------------
// Numbers

/// The character of a decimal digit.
pub open spec fn digit(d: int) -> char
    recommends
        0 <= d <= 9,
{
    (48 + d) as char
}

/// A natural number in decimal, without leading zeros.
pub open spec fn decimal(n: nat) -> Seq<char>
    decreases n,
{
    if n < 10 {
        seq![digit(n as int)]
    } else {
        decimal(n / 10).push(digit((n % 10) as int))
    }
}

/// An integer in decimal, with a minus sign where it is negative.
pub open spec fn decimal_int(i: int) -> Seq<char> {
    if i < 0 {
        seq!['-'] + decimal((-i) as nat)
    } else {
        decimal(i as nat)
    }
}

/// `u128::to_string`.
pub fn decimal_u128(n: u128) -> (r: String)
    ensures
        r@ == decimal(n as nat),
    decreases n,
{
    let last = (48 + (n % 10) as u8) as char;
    if n < 10 {
        let mut out = String::new();
        out.push(last);
        assert(out@ =~= seq![digit(n as int)]);
        out
    } else {
        let mut out = decimal_u128(n / 10);
        out.push(last);
        out
    }
}

/// `i64::to_string`.
pub fn decimal_i64(i: i64) -> (r: String)
    ensures
        r@ == decimal_int(i as int),
{
    if i < 0 {
        let size = (-(i as i128)) as u128;
        let mut out = String::new();
        out.push('-');
        out.append(decimal_u128(size).as_str());
        assert(out@ =~= seq!['-'] + decimal((-i) as nat));
        out
    } else {
        decimal_u128(i as u128)
    }
}

/// Whether a character is an ASCII digit.
pub open spec fn is_digit(c: char) -> bool {
    '0' <= c <= '9'
}

/// The number that a sequence of digits writes.
pub open spec fn digits_value(s: Seq<char>) -> nat
    decreases s.len(),
{
    if s.len() == 0 {
        0
    } else {
        digits_value(s.drop_last()) * 10 + (s.last() as u32 - 48) as nat
    }
}

/// A text without the sign that it may start with.
pub open spec fn unsigned_part(s: Seq<char>) -> Seq<char> {
    if s.len() > 0 && (s[0] == '-' || s[0] == '+') {
        s.drop_first()
    } else {
        s
    }
}

/// The integer that a text writes in decimal with an optional sign, of any size.
pub open spec fn int_value(s: Seq<char>) -> Option<int> {
    let body = unsigned_part(s);
    if body.len() == 0 || exists|i: int| 0 <= i < body.len() && !is_digit(#[trigger] body[i]) {
        None
    } else if s[0] == '-' {
        Some(-digits_value(body))
    } else {
        Some(digits_value(body) as int)
    }
}

/// The `i64` that a text writes, where it writes one.
pub open spec fn i64_value(s: Seq<char>) -> Option<i64> {
    match int_value(s) {
        Some(v) if i64::MIN <= v <= i64::MAX => Some(v as i64),
        _ => None,
    }
}

proof fn lemma_digits_value_grows(s: Seq<char>, i: int)
    requires
        0 <= i <= s.len(),
        forall|j: int| 0 <= j < s.len() ==> is_digit(#[trigger] s[j]),
    ensures
        digits_value(s.take(i)) <= digits_value(s),
    decreases s.len() - i,
{
    if i < s.len() {
        lemma_digits_value_grows(s, i + 1);
        assert(s.take(i + 1).drop_last() =~= s.take(i));
        assert(is_digit(s[i]));
    } else {
        assert(s.take(i) =~= s);
    }
}

/// `str::parse::<i64>().ok()`: an optional sign and at least one digit, in the range of `i64`.
pub fn parse_i64(s: &str) -> (r: Option<i64>)
    ensures
        r == i64_value(s@),
{
    let chars = chars_of(s);
    let n: usize = chars.len();
    let signed = n > 0 && (chars[0] == '-' || chars[0] == '+');
    let start: usize = if signed {
        1
    } else {
        0
    };
    let ghost body = unsigned_part(s@);
    assert(body =~= s@.skip(start as int));
    if start == n {
        return None;
    }
    let mut i: usize = start;
    while i < n
        invariant
            n == chars@.len(),
            chars@ == s@,
            start <= i <= n,
            body == s@.skip(start as int),
            body == unsigned_part(s@),
            forall|j: int| 0 <= j < i - start ==> is_digit(#[trigger] body[j]),
        decreases n - i,
    {
        assert(body[i - start] == chars@[i as int]);
        if chars[i] < '0' || '9' < chars[i] {
            assert(!is_digit(body[i - start]));
            return None;
        }
        i = i + 1;
    }
    let mut value: u128 = 0;
    i = start;
    assert(body.take(0) =~= Seq::<char>::empty());
    while i < n
        invariant
            n == chars@.len(),
            chars@ == s@,
            start <= i <= n,
            body == s@.skip(start as int),
            body == unsigned_part(s@),
            start < n,
            forall|j: int| 0 <= j < body.len() ==> is_digit(#[trigger] body[j]),
            value == digits_value(body.take(i - start)),
            value <= 0x8000_0000_0000_0000,
        decreases n - i,
    {
        assert(body[i - start] == chars@[i as int]);
        assert(is_digit(body[i - start]));
        assert(body.take(i - start + 1).drop_last() =~= body.take(i - start));
        value = value * 10 + (chars[i] as u32 - 48) as u128;
        i = i + 1;
        if value > 0x8000_0000_0000_0000 {
            proof {
                lemma_digits_value_grows(body, i - start);
            }
            return None;
        }
    }
    assert(body.take(n - start) =~= body);
    if chars[0] == '-' {
        Some((-(value as i128)) as i64)
    } else if value <= 0x7fff_ffff_ffff_ffff {
        Some(value as i64)
    } else {
        None
    }
}

// ---------------------------------------------------------------------------
// Byte positions

/// The number of bytes that a character takes in UTF-8.
pub open spec fn utf8_width(c: char) -> int {
    let n = c as u32;
    if n < 0x80 {
        1
    } else if n < 0x800 {
        2
    } else if n < 0x10000 {
        3
    } else {
        4
    }
}

/// What stands behind the first `bytes` bytes of a text, where a character starts or the text
/// ends there.
pub open spec fn after_bytes(s: Seq<char>, bytes: int) -> Option<Seq<char>>
    decreases s.len(),
{
    if bytes == 0 {
        Some(s)
    } else if bytes < 0 || s.len() == 0 {
        None
    } else {
        after_bytes(s.drop_first(), bytes - utf8_width(s[0]))
    }
}

/// `str::get(bytes..)`.
pub fn skip_bytes(s: &str, bytes: usize) -> (r: Option<String>)
    ensures
        match r {
            Some(rest) => after_bytes(s@, bytes as int) == Some(rest@),
            None => after_bytes(s@, bytes as int) is None,
        },
{
    let chars = chars_of(s);
    let n: usize = chars.len();
    let mut left: usize = bytes;
    let mut i: usize = 0;
    assert(chars@.skip(0) =~= chars@);
    while left > 0
        invariant
            n == chars@.len(),
            chars@ == s@,
            i <= n,
            after_bytes(chars@.skip(i as int), left as int) == after_bytes(s@, bytes as int),
        decreases left,
    {
        if i == n {
            return None;
        }
        let code = chars[i] as u32;
        let width: usize = if code < 0x80 {
            1
        } else if code < 0x800 {
            2
        } else if code < 0x10000 {
            3
        } else {
            4
        };
        assert(chars@.skip(i as int).drop_first() =~= chars@.skip(i + 1));
        assert(width == utf8_width(chars@.skip(i as int)[0]));
        if width > left {
            assert(after_bytes(chars@.skip(i + 1), left - width) is None);
            return None;
        }
        left = left - width;
        i = i + 1;
    }
    assert(chars@.skip(i as int) =~= chars@.subrange(i as int, n as int));
    Some(text_of(&chars, i, n))
}

// ---------------------------------------------------------------------------
// What the operations are

/// White space is what Unicode calls so: the tab, the line ends, the space, and the spaces of
/// other scripts.
pub proof fn white_space_characters(c: char)
    ensures
        is_white_space(c) <==> (c == '\t' || c == '\n' || c == '\u{b}' || c == '\u{c}' || c == '\r'
            || c == ' ' || c == '\u{85}' || c == '\u{a0}' || c == '\u{1680}' || '\u{2000}' <= c
            <= '\u{200a}' || c == '\u{2028}' || c == '\u{2029}' || c == '\u{202f}' || c
            == '\u{205f}' || c == '\u{3000}'),
{
}

/// Trimming cuts the white space at both ends of a text, all of it and nothing else.
pub proof fn trimming_cuts_both_ends(s: Seq<char>, from: int, to: int)
    requires
        0 <= from <= to <= s.len(),
        forall|j: int| 0 <= j < from ==> is_white_space(#[trigger] s[j]),
        forall|j: int| to <= j < s.len() ==> is_white_space(#[trigger] s[j]),
        from < to ==> !is_white_space(s[from]) && !is_white_space(s[to - 1]),
    ensures
        trimmed(s) == s.subrange(from, to),
{
    if from < to {
        lemma_trimmed_start(s, from);
        let rest = s.skip(from);
        assert forall|j: int| to - from <= j < rest.len() implies is_white_space(
            #[trigger] rest[j],
        ) by {
            assert(rest[j] == s[j + from]);
        }
        assert(rest[to - from - 1] == s[to - 1]);
        lemma_trimmed_end(rest, to - from);
        assert(rest.take(to - from) =~= s.subrange(from, to));
    } else {
        assert forall|j: int| 0 <= j < s.len() implies is_white_space(#[trigger] s[j]) by {
            if j >= from {
                assert(j >= to);
            }
        }
        blank_is_trimmed_empty(s);
        assert(trimmed(s) =~= s.subrange(from, to));
    }
}

/// A line feed ends a line, with the carriage return before it, and what follows it is cut into
/// lines in the same way.
pub proof fn line_feed_ends_a_line(line: Seq<char>, rest: Seq<char>)
    requires
        !line.contains('\n'),
    ensures
        lines_of(line + seq!['\r', '\n'] + rest) == seq![line] + lines_of(rest),
        line.len() == 0 || line.last() != '\r' ==> lines_of(line + seq!['\n'] + rest) == seq![line]
            + lines_of(rest),
        line.len() > 0 ==> lines_of(line) == seq![line],
        line.len() == 0 ==> lines_of(line) == Seq::<Seq<char>>::empty(),
{
    assert forall|j: int| 0 <= j < line.len() implies #[trigger] line[j] != '\n' by {
        assert(line.contains(line[j]));
    }
    let n = line.len() as int;
    let long = line + seq!['\r', '\n'] + rest;
    assert forall|j: int| 0 <= j < n + 1 implies #[trigger] long[j] != '\n' by {
        if j < n {
            assert(long[j] == line[j]);
        }
    }
    lemma_first_line(long, n + 1);
    assert(long.take(n + 1) =~= line.push('\r'));
    assert(line.push('\r').drop_last() =~= line);
    assert(long.skip(n + 2) =~= rest);
    let short = line + seq!['\n'] + rest;
    assert forall|j: int| 0 <= j < n implies #[trigger] short[j] != '\n' by {
        assert(short[j] == line[j]);
    }
    lemma_first_line(short, n);
    assert(short.take(n) =~= line);
    assert(short.skip(n + 1) =~= rest);
    if n > 0 {
        lemma_first_line(line, n);
    }
}

/// Joined texts stand one behind the other, with the separator between any two neighbours and
/// nowhere else.
pub proof fn separators_stand_between_texts(list: Seq<Seq<char>>, x: Seq<char>, sep: Seq<char>)
    ensures
        joined(Seq::<Seq<char>>::empty(), sep) == Seq::<char>::empty(),
        joined(seq![x], sep) == x,
        list.len() > 0 ==> joined(list.push(x), sep) == joined(list, sep) + sep + x,
{
    assert(list.push(x).drop_last() =~= list);
}

/// The first occurrence of a text is replaced, and then those in what follows it.
pub proof fn first_occurrence_is_replaced(
    before: Seq<char>,
    after: Seq<char>,
    from: Seq<char>,
    to: Seq<char>,
)
    requires
        from.len() > 0,
        forall|j: int|
            0 <= j < before.len() ==> #[trigger] (before + from + after).subrange(
                j,
                j + from.len(),
            ) != from,
    ensures
        replaced(before + from + after, from, to) == before + to + replaced(after, from, to),
    decreases before.len(),
{
    let s = before + from + after;
    if before.len() == 0 {
        assert(s.subrange(0, from.len() as int) =~= from);
        assert(s.skip(from.len() as int) =~= after);
        assert(before + to + replaced(after, from, to) =~= to + replaced(after, from, to));
    } else {
        let next = before.drop_first();
        assert(s.subrange(0, 0int + from.len()) != from);
        assert(s.drop_first() =~= next + from + after);
        assert forall|j: int| 0 <= j < next.len() implies #[trigger] (next + from
            + after).subrange(j, j + from.len()) != from by {
            assert((next + from + after).subrange(j, j + from.len()) =~= s.subrange(
                j + 1,
                j + 1 + from.len(),
            ));
        }
        first_occurrence_is_replaced(next, after, from, to);
        assert(before =~= seq![before[0]] + next);
        assert(seq![s[0]] + (next + to + replaced(after, from, to)) =~= before + to + replaced(
            after,
            from,
            to,
        ));
    }
}

/// A text in which another does not occur is left as it is.
pub proof fn nothing_to_replace(s: Seq<char>, from: Seq<char>, to: Seq<char>)
    requires
        from.len() > 0,
        forall|j: int|
            0 <= j <= s.len() - from.len() ==> #[trigger] s.subrange(j, j + from.len()) != from,
    ensures
        replaced(s, from, to) == s,
    decreases s.len(),
{
    if s.len() >= from.len() {
        assert(s.subrange(0, 0int + from.len()) != from);
        let next = s.drop_first();
        assert forall|j: int| 0 <= j <= next.len() - from.len() implies #[trigger] next.subrange(
            j,
            j + from.len(),
        ) != from by {
            assert(next.subrange(j, j + from.len()) =~= s.subrange(j + 1, j + 1 + from.len()));
        }
        nothing_to_replace(next, from, to);
        assert(seq![s[0]] + next =~= s);
    }
}

/// The characters at the end are cut, however many there are, up to one that is another.
pub proof fn end_is_cut(body: Seq<char>, tail: Seq<char>, c: char)
    requires
        body.len() > 0 ==> body.last() != c,
        forall|j: int| 0 <= j < tail.len() ==> #[trigger] tail[j] == c,
    ensures
        without_trailing(body + tail, c) == body,
    decreases tail.len(),
{
    let s = body + tail;
    if tail.len() == 0 {
        assert(s =~= body);
    } else {
        assert(s.last() == tail[tail.len() - 1]);
        assert(s.drop_last() =~= body + tail.drop_last());
        assert forall|j: int| 0 <= j < tail.drop_last().len() implies #[trigger] tail.drop_last()[j]
            == c by {
            assert(tail.drop_last()[j] == tail[j]);
        }
        end_is_cut(body, tail.drop_last(), c);
    }
}

/// A number is written with its digits, the last of which counts ones, and each other ten times
/// what the next one counts; a negative one has a minus sign.
pub proof fn numbers_are_written_in_decimal(n: nat, d: int)
    requires
        0 <= d <= 9,
    ensures
        decimal(d as nat) == seq![(48 + d) as char],
        n > 0 ==> decimal((10 * n + d) as nat) == decimal(n).push((48 + d) as char),
        decimal_int(n as int) == decimal(n),
        n > 0 ==> decimal_int(-n) == seq!['-'] + decimal(n),
{
    assert((10 * n + d) as nat / 10 == n);
    assert((10 * n + d) as nat % 10 == d);
}

proof fn lemma_decimal_reads_back(n: nat)
    ensures
        decimal(n).len() > 0,
        forall|i: int| 0 <= i < decimal(n).len() ==> is_digit(#[trigger] decimal(n)[i]),
        digits_value(decimal(n)) == n,
    decreases n,
{
    if n < 10 {
        let one = decimal(n);
        assert(one.drop_last() =~= Seq::<char>::empty());
        assert(one.last() as u32 - 48 == n);
        assert(digits_value(one.drop_last()) == 0);
    } else {
        lemma_decimal_reads_back(n / 10);
        let all = decimal(n);
        let front = decimal(n / 10);
        assert(all.drop_last() =~= front);
        assert(all.last() as u32 - 48 == n % 10);
        assert forall|i: int| 0 <= i < all.len() implies is_digit(#[trigger] all[i]) by {
            if i < front.len() {
                assert(all[i] == front[i]);
            }
        }
    }
}

/// An integer is read back as it was written, with or without a plus sign, and refused where it
/// does not fit; nor is anything read from a text with another character or without a digit.
pub proof fn integers_read_back(i: int, n: nat, s: Seq<char>, at: int)
    ensures
        i64::MIN <= i <= i64::MAX ==> i64_value(decimal_int(i)) == Some(i as i64),
        i < i64::MIN || i > i64::MAX ==> i64_value(decimal_int(i)) is None,
        n <= i64::MAX ==> i64_value(seq!['+'] + decimal(n)) == Some(n as i64),
        0 < at < s.len() && !('0' <= s[at] <= '9') ==> i64_value(s) is None,
        s.len() > 0 && !('0' <= s[0] <= '9' || s[0] == '-' || s[0] == '+') ==> i64_value(s) is None,
        s.len() == 0 || s == seq!['-'] || s == seq!['+'] ==> i64_value(s) is None,
{
    lemma_decimal_reads_back(n);
    lemma_decimal_reads_back(i as nat);
    lemma_decimal_reads_back((-i) as nat);
    let plus = seq!['+'] + decimal(n);
    assert(plus.drop_first() =~= decimal(n));
    if i < 0 {
        let text = decimal_int(i);
        assert(text.drop_first() =~= decimal((-i) as nat));
    } else {
        let text = decimal_int(i);
        assert(is_digit(text[0]));
    }
    let body = unsigned_part(s);
    if 0 < at < s.len() && !('0' <= s[at] <= '9') {
        if body.len() == s.len() {
            assert(!is_digit(body[at]));
        } else {
            assert(body[at - 1] == s[at]);
            assert(!is_digit(body[at - 1]));
        }
    }
    if s.len() > 0 && !('0' <= s[0] <= '9' || s[0] == '-' || s[0] == '+') {
        assert(!is_digit(body[0]));
    }
}

/// What stands behind the bytes of the start of a text is the rest of the text; there is nothing
/// behind a place inside a character or beyond the end.
pub proof fn bytes_are_skipped_by_characters(a: Seq<char>, b: Seq<char>, more: int)
    ensures
        after_bytes(a + b, vstd::utf8::encode_utf8(a).len() as int) == Some(b),
        more > 0 ==> after_bytes(a, vstd::utf8::encode_utf8(a).len() + more) is None,
        b.len() > 0 && 0 < more < vstd::utf8::encode_utf8(seq![b[0]]).len() ==> after_bytes(
            a + b,
            vstd::utf8::encode_utf8(a).len() + more,
        ) is None,
    decreases a.len(),
{
    if a.len() == 0 {
        assert(a + b =~= b);
        if b.len() > 0 {
            vstd::utf8::char_is_scalar(b[0]);
            let one = seq![b[0]];
            assert(one.drop_first() =~= Seq::<char>::empty());
            reveal_with_fuel(vstd::utf8::encode_utf8, 2);
            reveal_with_fuel(after_bytes, 2);
            assert(vstd::utf8::encode_utf8(one).len() == utf8_width(b[0]));
        }
    } else {
        let next = a.drop_first();
        vstd::utf8::char_is_scalar(a[0]);
        bytes_are_skipped_by_characters(next, b, more);
        assert((a + b).drop_first() =~= next + b);
        assert(vstd::utf8::encode_utf8(a).len() == utf8_width(a[0]) + vstd::utf8::encode_utf8(
            next,
        ).len());
    }
}

/// A list of texts is seen text by text, and an optional text is seen where there is one.
pub proof fn texts_are_seen(list: Seq<String>, text: String, slice: &str)
    ensures
        views(list).len() == list.len(),
        forall|i: int| 0 <= i < list.len() ==> #[trigger] views(list)[i] == list[i]@,
        view_option(Some(text)) == Some(text@),
        view_option(None) is None,
        text_view(Some(slice)) == Some(slice@),
        text_view(None) is None,
{
}

proof fn lemma_leading_zero(s: Seq<char>)
    ensures
        digits_value(seq!['0'] + s) == digits_value(s),
    decreases s.len(),
{
    let long = seq!['0'] + s;
    if s.len() == 0 {
        assert(long.drop_last() =~= s);
    } else {
        assert(long.drop_last() =~= seq!['0'] + s.drop_last());
        lemma_leading_zero(s.drop_last());
    }
}

/// Zeros before a number change nothing, and a sign before its digits is its sign.
pub proof fn leading_zeros_and_signs(s: Seq<char>)
    requires
        s.len() > 0,
        forall|i: int| 0 <= i < s.len() ==> '0' <= #[trigger] s[i] <= '9',
    ensures
        i64_value(seq!['0'] + s) == i64_value(s),
        i64_value(seq!['+'] + s) == i64_value(s),
        i64_value(s) matches Some(v) ==> v >= 0 && i64_value(seq!['-'] + s) == Some((-v) as i64),
{
    let zero = seq!['0'] + s;
    let plus = seq!['+'] + s;
    let minus = seq!['-'] + s;
    lemma_leading_zero(s);
    assert(plus.drop_first() =~= s);
    assert(minus.drop_first() =~= s);
    assert('0' <= s[0] <= '9');
    assert forall|i: int| 0 <= i < zero.len() implies is_digit(#[trigger] zero[i]) by {
        if i > 0 {
            assert(zero[i] == s[i - 1]);
        }
    }
    assert forall|i: int| 0 <= i < s.len() implies is_digit(#[trigger] s[i]) by {}
}

} // verus!
