//! Strings as sequences of characters: the searching, splitting and trimming that the rest of the
//! crate is stated over.

use vstd::prelude::*;

verus! {

/// `String::push` appends one character.
pub assume_specification[ String::push ](s: &mut String, c: char)
    ensures
        final(s)@ == old(s)@.push(c),
;

/// Whether `p` occurs somewhere in `s`.
pub open spec fn occurs(p: Seq<char>, s: Seq<char>) -> bool {
    exists|i: int| 0 <= i <= s.len() - p.len() && #[trigger] s.subrange(i, i + p.len()) == p
}

/// The ASCII lower-case form of one character; every other character is its own.
pub open spec fn lower_char(c: char) -> char {
    if 'A' <= c && c <= 'Z' {
        ((c as u8) + 32) as char
    } else {
        c
    }
}

/// `s` with its ASCII letters in lower case.
pub open spec fn lower(s: Seq<char>) -> Seq<char> {
    s.map_values(|c: char| lower_char(c))
}

/// The characters of a string, in order.
pub fn to_chars(s: &str) -> (out: Vec<char>)
    ensures
        out@ == s@,
{
    let mut out: Vec<char> = Vec::new();
    for c in it: s.chars()
        invariant
            out@ == it.seq().take(it.index()),
            it.seq() == s@,
    {
        proof { assert(it.seq().take(it.index() + 1) == it.seq().take(it.index()).push(c)); }
        out.push(c);
    }
    out
}

/// The string that a run of characters spells.
pub fn from_chars(chars: &[char]) -> (out: String)
    ensures
        out@ == chars@,
{
    let mut out = String::new();
    let mut i: usize = 0;
    while i < chars.len()
        invariant
            i <= chars.len(),
            out@ == chars@.take(i as int),
        decreases chars.len() - i,
    {
        assert(chars@.take(i + 1) == chars@.take(i as int).push(chars@[i as int]));
        out.push(chars[i]);
        i = i + 1;
    }
    assert(chars@.take(i as int) == chars@);
    out
}

/// Whether two runs of characters are the same.
pub fn same(a: &[char], b: &[char]) -> (r: bool)
    ensures
        r == (a@ == b@),
{
    if a.len() != b.len() {
        return false;
    }
    let mut i: usize = 0;
    while i < a.len()
        invariant
            i <= a.len(),
            a.len() == b.len(),
            forall|j: int| 0 <= j < i ==> a@[j] == b@[j],
        decreases a.len() - i,
    {
        if a[i] != b[i] {
            return false;
        }
        i = i + 1;
    }
    assert(a@ =~= b@);
    true
}

/// Whether two strings spell the same text.
pub fn same_text(a: &str, b: &str) -> (r: bool)
    ensures
        r == (a@ == b@),
{
    let x = to_chars(a);
    let y = to_chars(b);
    same(x.as_slice(), y.as_slice())
}

/// Whether `p` stands in `s` at position `at`.
fn stands_at(s: &[char], p: &[char], at: usize) -> (r: bool)
    requires
        at + p.len() <= s.len(),
    ensures
        r == (s@.subrange(at as int, at + p.len()) == p@),
{
    let mut i: usize = 0;
    while i < p.len()
        invariant
            i <= p.len(),
            at + p.len() <= s.len(),
            forall|j: int| 0 <= j < i ==> s@[at + j] == p@[j],
        decreases p.len() - i,
    {
        if s[at + i] != p[i] {
            assert(s@.subrange(at as int, at + p.len())[i as int] != p@[i as int]);
            return false;
        }
        i = i + 1;
    }
    assert(s@.subrange(at as int, at + p.len()) =~= p@);
    true
}

/// Whether `s` begins with `p`.
pub fn begins_with(s: &[char], p: &[char]) -> (r: bool)
    ensures
        r == p@.is_prefix_of(s@),
{
    p.len() <= s.len() && stands_at(s, p, 0)
}

/// Whether `s` ends with `p`.
pub fn finishes_with(s: &[char], p: &[char]) -> (r: bool)
    ensures
        r == p@.is_suffix_of(s@),
{
    p.len() <= s.len() && stands_at(s, p, s.len() - p.len())
}

/// Whether `p` occurs anywhere in `s`.
pub fn contains(s: &[char], p: &[char]) -> (r: bool)
    ensures
        r == occurs(p@, s@),
{
    if p.len() > s.len() {
        return false;
    }
    let last = s.len() - p.len();
    let mut i: usize = 0;
    while i < last
        invariant
            last == s.len() - p.len(),
            i <= last,
            forall|j: int| 0 <= j < i ==> #[trigger] s@.subrange(j, j + p@.len()) != p@,
        decreases last - i,
    {
        if stands_at(s, p, i) {
            return true;
        }
        i = i + 1;
    }
    stands_at(s, p, last)
}

/// `s` with its ASCII letters in lower case.
pub fn to_lower(s: &[char]) -> (out: Vec<char>)
    ensures
        out@ == lower(s@),
{
    let mut out: Vec<char> = Vec::new();
    let mut i: usize = 0;
    while i < s.len()
        invariant
            i <= s.len(),
            out@ == lower(s@.take(i as int)),
        decreases s.len() - i,
    {
        let c = s[i];
        let d = if 'A' <= c && c <= 'Z' {
            (c as u8 + 32) as char
        } else {
            c
        };
        out.push(d);
        i = i + 1;
        assert(out@ =~= lower(s@.take(i as int)));
    }
    assert(s@.take(i as int) == s@);
    out
}

/// Whether a character is white space in Unicode's sense.
pub open spec fn is_white(c: char) -> bool {
    ||| '\u{9}' <= c && c <= '\u{d}'
    ||| c == ' '
    ||| c == '\u{85}'
    ||| c == '\u{a0}'
    ||| c == '\u{1680}'
    ||| '\u{2000}' <= c && c <= '\u{200a}'
    ||| c == '\u{2028}'
    ||| c == '\u{2029}'
    ||| c == '\u{202f}'
    ||| c == '\u{205f}'
    ||| c == '\u{3000}'
}

/// `s` without the run of characters at its start that `drop` picks.
pub open spec fn trim_start(s: Seq<char>, drop: spec_fn(char) -> bool) -> Seq<char>
    decreases s.len(),
{
    if s.len() > 0 && drop(s[0]) {
        trim_start(s.drop_first(), drop)
    } else {
        s
    }
}

/// `s` without the run of characters at its end that `drop` picks.
pub open spec fn trim_end(s: Seq<char>, drop: spec_fn(char) -> bool) -> Seq<char>
    decreases s.len(),
{
    if s.len() > 0 && drop(s.last()) {
        trim_end(s.drop_last(), drop)
    } else {
        s
    }
}

/// `s` without the white space around it.
pub open spec fn trim(s: Seq<char>) -> Seq<char> {
    trim_end(trim_start(s, |c: char| is_white(c)), |c: char| is_white(c))
}

/// Whether `s` holds nothing but white space.
pub open spec fn blank(s: Seq<char>) -> bool {
    forall|i: int| 0 <= i < s.len() ==> is_white(#[trigger] s[i])
}

/// The pieces of `s` between the separators, of which there is always at least one.
pub open spec fn split(s: Seq<char>, sep: char) -> Seq<Seq<char>>
    decreases s.len(),
{
    if s.len() == 0 {
        seq![s]
    } else {
        let rest = split(s.drop_last(), sep);
        if s.last() == sep {
            rest.push(Seq::empty())
        } else {
            rest.drop_last().push(rest.last().push(s.last()))
        }
    }
}

/// A line without the carriage return that ended it.
pub open spec fn strip_cr(s: Seq<char>) -> Seq<char> {
    if s.len() > 0 && s.last() == '\r' {
        s.drop_last()
    } else {
        s
    }
}

/// The lines of a text. A line feed ends a line, together with a carriage return before it; what
/// follows the last line feed is a line of its own unless it is empty.
pub open spec fn lines(s: Seq<char>) -> Seq<Seq<char>> {
    let pieces = split(s, '\n');
    let ended = pieces.drop_last().map_values(|p: Seq<char>| strip_cr(p));
    if pieces.last().len() == 0 {
        ended
    } else {
        ended.push(pieces.last())
    }
}

/// The pieces with `sep` between each two.
pub open spec fn join(pieces: Seq<Seq<char>>, sep: Seq<char>) -> Seq<char>
    decreases pieces.len(),
{
    if pieces.len() == 0 {
        Seq::empty()
    } else if pieces.len() == 1 {
        pieces[0]
    } else {
        join(pieces.drop_last(), sep) + sep + pieces.last()
    }
}

/// The texts of a vector of strings.
pub open spec fn texts(v: Seq<String>) -> Seq<Seq<char>> {
    v.map_values(|s: String| s@)
}

/// The runs of characters of a vector of runs.
pub open spec fn runs(v: Seq<Vec<char>>) -> Seq<Seq<char>> {
    v.map_values(|s: Vec<char>| s@)
}

/// A number of blanks.
pub open spec fn blanks(n: int) -> Seq<char> {
    Seq::new(
        if n > 0 {
            n as nat
        } else {
            0
        },
        |i: int| ' ',
    )
}

/// `s` at the left of a field at least `width` characters wide.
pub open spec fn pad_right(s: Seq<char>, width: int) -> Seq<char> {
    s + blanks(width - s.len())
}

/// `s` at the right of a field at least `width` characters wide.
pub open spec fn pad_left(s: Seq<char>, width: int) -> Seq<char> {
    blanks(width - s.len()) + s
}

/// A text has always at least one piece.
pub proof fn lemma_split_nonempty(s: Seq<char>, sep: char)
    ensures
        split(s, sep).len() > 0,
    decreases s.len(),
{
    if s.len() > 0 {
        lemma_split_nonempty(s.drop_last(), sep);
    }
}

/// Tells white space from everything else.
pub fn white(c: char) -> (r: bool)
    ensures
        r == is_white(c),
{
    ('\u{9}' <= c && c <= '\u{d}') || c == ' ' || c == '\u{85}' || c == '\u{a0}' || c == '\u{1680}'
        || ('\u{2000}' <= c && c <= '\u{200a}') || c == '\u{2028}' || c == '\u{2029}' || c
        == '\u{202f}' || c == '\u{205f}' || c == '\u{3000}'
}

/// The run without the white space around it.
pub fn trimmed(s: &[char]) -> (out: &[char])
    ensures
        out@ == trim(s@),
{
    let ghost drop = |c: char| is_white(c);
    let mut from: usize = 0;
    assert(s@.skip(0) == s@);
    while from < s.len() && white(s[from])
        invariant
            from <= s.len(),
            drop == (|c: char| is_white(c)),
            trim_start(s@, drop) == trim_start(s@.skip(from as int), drop),
        decreases s.len() - from,
    {
        assert(s@.skip(from as int).drop_first() == s@.skip(from + 1));
        from = from + 1;
    }
    let ghost mid = s@.skip(from as int);
    let mut to: usize = s.len();
    assert(mid == s@.subrange(from as int, to as int));
    while to > from && white(s[to - 1])
        invariant
            from <= to <= s.len(),
            drop == (|c: char| is_white(c)),
            trim_end(mid, drop) == trim_end(s@.subrange(from as int, to as int), drop),
        decreases to,
    {
        assert(s@.subrange(from as int, to as int).drop_last() == s@.subrange(
            from as int,
            to - 1,
        ));
        to = to - 1;
    }
    vstd::slice::slice_subrange(s, from, to)
}

/// The run without the characters `open` at its start and `close` at its end.
pub fn unwrapped(s: &[char], open: char, close: char) -> (out: &[char])
    ensures
        out@ == trim_end(trim_start(s@, |c: char| c == open), |c: char| c == close),
{
    let ghost at_start = |c: char| c == open;
    let mut from: usize = 0;
    assert(s@.skip(0) == s@);
    while from < s.len() && s[from] == open
        invariant
            from <= s.len(),
            at_start == (|c: char| c == open),
            trim_start(s@, at_start) == trim_start(s@.skip(from as int), at_start),
        decreases s.len() - from,
    {
        assert(s@.skip(from as int).drop_first() == s@.skip(from + 1));
        from = from + 1;
    }
    assert(s@.skip(from as int) =~= s@.subrange(from as int, s@.len() as int));
    without_trailing(vstd::slice::slice_subrange(s, from, s.len()), close)
}

/// The run without the characters `close` at its end.
pub fn without_trailing(s: &[char], close: char) -> (out: &[char])
    ensures
        out@ == trim_end(s@, |c: char| c == close),
{
    let ghost at_end = |c: char| c == close;
    let mut to: usize = s.len();
    assert(s@.take(to as int) == s@);
    while to > 0 && s[to - 1] == close
        invariant
            to <= s.len(),
            at_end == (|c: char| c == close),
            trim_end(s@, at_end) == trim_end(s@.take(to as int), at_end),
        decreases to,
    {
        assert(s@.take(to as int).drop_last() == s@.take(to - 1));
        to = to - 1;
    }
    assert(s@.take(to as int) =~= s@.subrange(0, to as int));
    vstd::slice::slice_subrange(s, 0, to)
}

/// The pieces of `s` between the separators.
pub fn split_at(s: &[char], sep: char) -> (out: Vec<Vec<char>>)
    ensures
        runs(out@) == split(s@, sep),
{
    let mut done: Vec<Vec<char>> = Vec::new();
    let mut piece: Vec<char> = Vec::new();
    let mut i: usize = 0;
    assert(s@.take(0) =~= Seq::<char>::empty());
    assert(runs(done@).push(piece@) =~= split(s@.take(0), sep));
    while i < s.len()
        invariant
            i <= s.len(),
            runs(done@).push(piece@) == split(s@.take(i as int), sep),
        decreases s.len() - i,
    {
        let c = s[i];
        let ghost before = s@.take(i as int);
        let ghost now = s@.take(i + 1);
        assert(now.drop_last() == before);
        assert(now.last() == c);
        assert(split(before, sep).drop_last() == runs(done@));
        assert(split(before, sep).last() == piece@);
        if c == sep {
            let ghost old_done = done@;
            let ghost old_piece = piece@;
            done.push(piece);
            piece = Vec::new();
            assert(runs(done@) =~= runs(old_done).push(old_piece));
            assert(piece@ =~= Seq::<char>::empty());
        } else {
            piece.push(c);
        }
        i = i + 1;
    }
    assert(s@.take(i as int) == s@);
    let ghost old_done = done@;
    let ghost old_piece = piece@;
    done.push(piece);
    assert(runs(done@) =~= runs(old_done).push(old_piece));
    done
}

/// The lines of a text.
pub fn lines_of(s: &[char]) -> (out: Vec<Vec<char>>)
    ensures
        runs(out@) == lines(s@),
{
    let mut pieces = split_at(s, '\n');
    proof {
        lemma_split_nonempty(s@, '\n');
        assert(runs(pieces@).len() == pieces@.len());
    }
    let ghost all = pieces@;
    let tail = pieces.pop().unwrap();
    assert(all.drop_last() == pieces@);
    assert(runs(all).drop_last() =~= runs(pieces@));
    assert(runs(all).last() == tail@);
    let ghost ended = runs(pieces@).map_values(|p: Seq<char>| strip_cr(p));
    let mut i: usize = 0;
    let ghost raw = pieces@;
    while i < pieces.len()
        invariant
            i <= pieces.len(),
            pieces.len() == raw.len(),
            forall|j: int| 0 <= j < i ==> (#[trigger] pieces@[j])@ == strip_cr(raw[j]@),
            forall|j: int| i <= j < raw.len() ==> pieces@[j] == raw[j],
        decreases pieces.len() - i,
    {
        if pieces[i].len() > 0 && pieces[i][pieces[i].len() - 1] == '\r' {
            let mut line: Vec<char> = Vec::new();
            std::mem::swap(&mut line, &mut pieces[i]);
            line.pop();
            pieces[i] = line;
        }
        i = i + 1;
    }
    assert(runs(pieces@) =~= ended);
    if tail.len() > 0 {
        let ghost before = pieces@;
        let ghost last = tail@;
        pieces.push(tail);
        assert(runs(pieces@) =~= runs(before).push(last));
    }
    pieces
}

/// The strings with `sep` between each two.
pub fn joined(pieces: &[String], sep: &str) -> (out: String)
    ensures
        out@ == join(texts(pieces@), sep@),
{
    let mut out = String::new();
    let mut i: usize = 0;
    while i < pieces.len()
        invariant
            i <= pieces.len(),
            out@ == join(texts(pieces@.take(i as int)), sep@),
        decreases pieces.len() - i,
    {
        let ghost before = texts(pieces@.take(i as int));
        let ghost now = texts(pieces@.take(i + 1));
        assert(now.drop_last() =~= before);
        assert(now.last() == pieces@[i as int]@);
        if i > 0 {
            out.append(sep);
        } else {
            assert(before =~= Seq::<Seq<char>>::empty());
        }
        out.append(pieces[i].as_str());
        assert(out@ =~= join(now, sep@));
        i = i + 1;
    }
    assert(pieces@.take(i as int) == pieces@);
    out
}

/// Adds blanks to the end of `out` for a text of `len` characters to fill `width`.
pub fn push_blanks(out: &mut String, len: usize, width: usize)
    ensures
        final(out)@ == old(out)@ + blanks(width - len),
{
    let mut i: usize = len;
    assert(out@ =~= old(out)@ + blanks(i - len));
    while i < width
        invariant
            len <= i,
            i <= width || i == len,
            out@ == old(out)@ + blanks(i - len),
        decreases width - i,
    {
        out.push(' ');
        i = i + 1;
        assert(out@ =~= old(out)@ + blanks(i - len));
    }
    assert(blanks(i - len) =~= blanks(width - len));
}

/// The texts that a list of words holds.
pub open spec fn words(v: Seq<&str>) -> Seq<Seq<char>> {
    v.map_values(|s: &str| s@)
}

/// Whether a text is one of a list of words.
pub fn is_one_of(s: &str, list: &[&str]) -> (r: bool)
    ensures
        r == words(list@).contains(s@),
{
    let mut i: usize = 0;
    while i < list.len()
        invariant
            i <= list.len(),
            forall|j: int| 0 <= j < i ==> #[trigger] words(list@)[j] != s@,
        decreases list.len() - i,
    {
        if same_text(s, list[i]) {
            assert(words(list@)[i as int] == s@);
            return true;
        }
        i += 1;
    }
    false
}

/// Two texts, one behind the other.
pub fn concat(a: &str, b: &str) -> (out: String)
    ensures
        out@ == a@ + b@,
{
    let mut out = String::new();
    out.append(a);
    assert(out@ =~= a@);
    out.append(b);
    out
}

/// Three texts, one behind the other.
pub fn concat3(a: &str, b: &str, c: &str) -> (out: String)
    ensures
        out@ == a@ + b@ + c@,
{
    let mut out = concat(a, b);
    out.append(c);
    out
}

/// Five texts, one behind the other.
pub fn concat5(a: &str, b: &str, c: &str, d: &str, e: &str) -> (out: String)
    ensures
        out@ == a@ + b@ + c@ + d@ + e@,
{
    let mut out = concat3(a, b, c);
    out.append(d);
    out.append(e);
    out
}

/// A text without separators is its only piece.
pub proof fn lemma_split_whole(t: Seq<char>, sep: char)
    requires
        !t.contains(sep),
    ensures
        split(t, sep) == seq![t],
    decreases t.len(),
{
    if t.len() > 0 {
        let front = t.drop_last();
        assert forall|i: int| 0 <= i < front.len() implies #[trigger] front[i] != sep by {
            assert(t[i] != sep);
        }
        lemma_split_whole(front, sep);
        assert(t[t.len() - 1] != sep);
        assert(front.push(t.last()) =~= t);
        assert(split(t, sep) =~= seq![t]);
    }
}

/// What follows the last separator is the last piece.
pub proof fn lemma_split_last(s: Seq<char>, t: Seq<char>, sep: char)
    requires
        !t.contains(sep),
    ensures
        split(s.push(sep) + t, sep) == split(s, sep).push(t),
    decreases t.len(),
{
    let whole = s.push(sep) + t;
    if t.len() == 0 {
        assert(whole.drop_last() =~= s);
        assert(t =~= Seq::empty());
    } else {
        let front = t.drop_last();
        assert forall|i: int| 0 <= i < front.len() implies #[trigger] front[i] != sep by {
            assert(t[i] != sep);
        }
        lemma_split_last(s, front, sep);
        assert(t[t.len() - 1] != sep);
        assert(whole.drop_last() =~= s.push(sep) + front);
        assert(whole.last() == t.last());
        assert(front.push(t.last()) =~= t);
        assert(split(whole, sep) =~= split(s, sep).push(t));
    }
}

/// Pieces that are joined by a separator that none of them holds are the pieces again.
pub proof fn lemma_split_join(pieces: Seq<Seq<char>>, sep: char)
    requires
        pieces.len() > 0,
        forall|i: int| 0 <= i < pieces.len() ==> !(#[trigger] pieces[i]).contains(sep),
    ensures
        split(join(pieces, seq![sep]), sep) == pieces,
    decreases pieces.len(),
{
    assert(!pieces[pieces.len() - 1].contains(sep));
    if pieces.len() == 1 {
        lemma_split_whole(pieces[0], sep);
        assert(pieces =~= seq![pieces[0]]);
    } else {
        let front = pieces.drop_last();
        assert forall|i: int| 0 <= i < front.len() implies !(#[trigger] front[i]).contains(sep) by {
            assert(!pieces[i].contains(sep));
        }
        lemma_split_join(front, sep);
        let s = join(front, seq![sep]);
        lemma_split_last(s, pieces.last(), sep);
        assert(join(pieces, seq![sep]) =~= s.push(sep) + pieces.last());
        assert(front.push(pieces.last()) =~= pieces);
    }
}

/// Whether a text is read back as a line of its own: it is not empty, holds no line feed, and does
/// not end in a carriage return.
pub open spec fn is_line(s: Seq<char>) -> bool {
    s.len() > 0 && !s.contains('\n') && s.last() != '\r'
}

/// Lines that are joined by line feeds are the lines again.
pub proof fn lemma_lines_join(list: Seq<Seq<char>>)
    requires
        forall|i: int| 0 <= i < list.len() ==> is_line(#[trigger] list[i]),
    ensures
        lines(join(list, seq!['\n'])) == list,
{
    let s = join(list, seq!['\n']);
    if list.len() == 0 {
        assert(split(s, '\n') =~= seq![s]);
        assert(lines(s) =~= list);
    } else {
        assert forall|i: int| 0 <= i < list.len() implies !(#[trigger] list[i]).contains('\n') by {
            assert(is_line(list[i]));
        }
        lemma_split_join(list, '\n');
        assert(is_line(list[list.len() - 1]));
        let ended = list.drop_last().map_values(|p: Seq<char>| strip_cr(p));
        assert forall|i: int| 0 <= i < ended.len() implies #[trigger] ended[i] == list[i] by {
            assert(is_line(list[i]));
        }
        assert(lines(s) =~= list);
    }
}

/// Whether `s` holds nothing but white space.
pub fn is_blank(s: &[char]) -> (r: bool)
    ensures
        r == blank(s@),
{
    let mut i: usize = 0;
    while i < s.len()
        invariant
            i <= s.len(),
            forall|j: int| 0 <= j < i ==> is_white(#[trigger] s@[j]),
        decreases s.len() - i,
    {
        if !white(s[i]) {
            return false;
        }
        i += 1;
    }
    true
}

/// The text that an optional string holds.
pub open spec fn optional_string(s: Option<String>) -> Option<Seq<char>> {
    match s {
        Some(s) => Some(s@),
        None => None,
    }
}

/// The text that an optional text holds.
pub open spec fn optional(s: Option<&str>) -> Option<Seq<char>> {
    match s {
        Some(s) => Some(s@),
        None => None,
    }
}

/// Copies of texts.
pub fn copies(list: &[String]) -> (out: Vec<String>)
    ensures
        texts(out@) == texts(list@),
{
    let mut out: Vec<String> = Vec::new();
    let mut i: usize = 0;
    while i < list.len()
        invariant
            i <= list.len(),
            texts(out@) =~= texts(list@.take(i as int)),
        decreases list.len() - i,
    {
        let ghost before = texts(out@);
        out.push(list[i].as_str().to_string());
        assert(texts(out@) =~= before.push(list@[i as int]@));
        i += 1;
    }
    assert(list@.take(i as int) =~= list@);
    out
}

/// A line without the carriage return that ended it.
pub fn without_cr(s: &[char]) -> (out: &[char])
    ensures
        out@ == strip_cr(s@),
{
    let len = s.len();
    if len > 0 && s[len - 1] == '\r' {
        vstd::slice::slice_subrange(s, 0, len - 1)
    } else {
        s
    }
}

/// Pieces that are joined begin with the first.
pub proof fn lemma_join_front(pieces: Seq<Seq<char>>, sep: Seq<char>)
    requires
        pieces.len() > 1,
    ensures
        join(pieces, sep) == pieces[0] + sep + join(pieces.skip(1), sep),
    decreases pieces.len(),
{
    let front = pieces.drop_last();
    let rest = pieces.skip(1);
    if pieces.len() == 2 {
        assert(front.len() == 1 && front[0] == pieces[0]);
        assert(rest.len() == 1 && rest[0] == pieces[1]);
        assert(join(front, sep) == pieces[0]);
        assert(join(rest, sep) == pieces[1]);
    } else {
        lemma_join_front(front, sep);
        assert(front.skip(1) =~= rest.drop_last());
        assert(rest.last() == pieces.last());
        assert(join(pieces, sep) =~= pieces[0] + sep + join(rest, sep));
    }
}

/// The pieces of a text, joined again, are the text.
pub proof fn lemma_join_split(s: Seq<char>, sep: char)
    ensures
        join(split(s, sep), seq![sep]) == s,
    decreases s.len(),
{
    lemma_split_nonempty(s, sep);
    if s.len() > 0 {
        let before = s.drop_last();
        let pieces = split(before, sep);
        lemma_split_nonempty(before, sep);
        lemma_join_split(before, sep);
        if s.last() == sep {
            assert(split(s, sep).drop_last() =~= pieces);
            assert(join(split(s, sep), seq![sep]) =~= s);
        } else {
            let grown = pieces.last().push(s.last());
            assert(split(s, sep) == pieces.drop_last().push(grown));
            if pieces.len() == 1 {
                assert(pieces.drop_last() =~= Seq::empty());
                assert(join(split(s, sep), seq![sep]) =~= s);
            } else {
                let front = join(pieces.drop_last(), seq![sep]);
                assert(split(s, sep).drop_last() =~= pieces.drop_last());
                assert(split(s, sep).last() == grown);
                assert(split(s, sep).len() == pieces.len());
                assert(before == front + seq![sep] + pieces.last());
                assert(join(split(s, sep), seq![sep]) == front + seq![sep] + grown);
                assert(front + seq![sep] + grown =~= before.push(s.last()));
                assert(before.push(s.last()) =~= s);
            }
        }
    }
}

/// Each piece of a text occurs in it.
pub proof fn lemma_piece_occurs(s: Seq<char>, sep: char, i: int)
    requires
        0 <= i < split(s, sep).len(),
    ensures
        occurs(split(s, sep)[i], s),
        i == split(s, sep).len() - 1 ==> split(s, sep)[i].is_suffix_of(s),
    decreases s.len(),
{
    let p = split(s, sep)[i];
    if s.len() == 0 {
        assert(p == s);
        assert(s.subrange(0, 0 + p.len() as int) =~= p);
    } else {
        let before = s.drop_last();
        let pieces = split(before, sep);
        lemma_split_nonempty(before, sep);
        if s.last() == sep && i == pieces.len() {
            assert(p =~= Seq::empty());
            assert(s.subrange(s.len() as int, s.len() as int + p.len()) =~= p);
            assert(s.subrange(s.len() - p.len(), s.len() as int) =~= p);
        } else if s.last() != sep && i == pieces.len() - 1 {
            lemma_piece_occurs(before, sep, i);
            let q = pieces.last();
            assert(before.subrange(before.len() - q.len(), before.len() as int) == q);
            let at = before.len() - q.len();
            assert(p == q.push(s.last()));
            assert(s.subrange(at, at + p.len()) =~= p);
            assert(s.subrange(s.len() - p.len(), s.len() as int) =~= p);
        } else {
            lemma_piece_occurs(before, sep, i);
            assert(p == pieces[i]);
            let at = choose|at: int|
                0 <= at <= before.len() - p.len() && #[trigger] before.subrange(at, at + p.len())
                    == p;
            assert(s.subrange(at, at + p.len()) =~= p);
        }
    }
}

/// A text occurs in every text that has it between two others, and where it occurs it stands between
/// what comes before and what comes behind.
pub proof fn law_what_occurs_stands_between(
    p: Seq<char>,
    a: Seq<char>,
    b: Seq<char>,
    s: Seq<char>,
)
    ensures
        occurs(p, a + p + b),
        occurs(p, s) ==> exists|i: int|
            0 <= i <= s.len() - p.len() && s == #[trigger] s.take(i) + p + s.skip(i + p.len()),
{
    let n = a.len() as int;
    assert((a + p + b).subrange(n, n + p.len()) =~= p);
    if occurs(p, s) {
        let i = choose|i: int|
            0 <= i <= s.len() - p.len() && #[trigger] s.subrange(i, i + p.len()) == p;
        assert(s =~= s.take(i) + s.subrange(i, i + p.len()) + s.skip(i + p.len()));
    }
}

/// Lower case changes the letters `A` to `Z`, to those that stand 32 places further on, and nothing
/// else.
pub proof fn law_lower_case_changes_letters_only(s: Seq<char>, i: int)
    requires
        0 <= i < s.len(),
    ensures
        lower(s).len() == s.len(),
        65 <= s[i] as u32 <= 90 ==> lower(s)[i] as u32 == s[i] as u32 + 32,
        !(65 <= s[i] as u32 <= 90) ==> lower(s)[i] == s[i],
{
    let c = s[i];
    if 'A' <= c && c <= 'Z' {
        let b = c as u8;
        assert(((b + 32) as u8) as char as u32 == b as u32 + 32);
    }
}

/// White space is what Unicode has as such.
pub proof fn law_white_space(c: char)
    ensures
        is_white(c) <==> {
            let n = c as u32;
            ||| 9 <= n <= 13 || n == 32 || n == 0x85 || n == 0xa0 || n == 0x1680
            ||| 0x2000 <= n <= 0x200a || n == 0x2028 || n == 0x2029 || n == 0x202f || n == 0x205f
            ||| n == 0x3000
        },
{
}

/// What is dropped from the start of a text is the longest run of what is to be dropped.
pub proof fn law_trimming_the_start(a: Seq<char>, m: Seq<char>, drop: spec_fn(char) -> bool)
    requires
        forall|i: int| 0 <= i < a.len() ==> drop(#[trigger] a[i]),
        m.len() > 0 ==> !drop(m[0]),
    ensures
        trim_start(a + m, drop) == m,
    decreases a.len(),
{
    if a.len() == 0 {
        assert(a + m =~= m);
    } else {
        let rest = a.drop_first();
        assert forall|i: int| 0 <= i < rest.len() implies drop(#[trigger] rest[i]) by {
            assert(rest[i] == a[i + 1]);
        }
        law_trimming_the_start(rest, m, drop);
        assert(drop(a[0]));
        assert((a + m).drop_first() =~= rest + m);
    }
}

/// What is dropped from the end of a text is the longest run of what is to be dropped.
pub proof fn law_trimming_the_end(m: Seq<char>, b: Seq<char>, drop: spec_fn(char) -> bool)
    requires
        forall|i: int| 0 <= i < b.len() ==> drop(#[trigger] b[i]),
        m.len() > 0 ==> !drop(m.last()),
    ensures
        trim_end(m + b, drop) == m,
    decreases b.len(),
{
    if b.len() == 0 {
        assert(m + b =~= m);
    } else {
        let rest = b.drop_last();
        assert forall|i: int| 0 <= i < rest.len() implies drop(#[trigger] rest[i]) by {
            assert(rest[i] == b[i]);
        }
        law_trimming_the_end(m, rest, drop);
        assert(drop(b[b.len() - 1]));
        assert((m + b).drop_last() =~= m + rest);
    }
}

/// A text between white space is what is left of it, and nothing is left of white space alone.
pub proof fn law_trimming(a: Seq<char>, m: Seq<char>, b: Seq<char>)
    requires
        forall|i: int| 0 <= i < a.len() ==> is_white(#[trigger] a[i]),
        forall|i: int| 0 <= i < b.len() ==> is_white(#[trigger] b[i]),
        m.len() > 0 ==> !is_white(m[0]) && !is_white(m.last()),
    ensures
        trim(a + m + b) == m,
        blank(a + m + b) <==> m.len() == 0,
{
    let drop = |c: char| is_white(c);
    if m.len() > 0 {
        assert((a + m + b)[a.len() as int] == m[0]);
        assert(a + m + b =~= a + (m + b));
        law_trimming_the_start(a, m + b, drop);
        law_trimming_the_end(m, b, drop);
    } else {
        let all = a + b;
        assert(a + m + b =~= all);
        assert(all + m =~= all);
        assert forall|i: int| 0 <= i < all.len() implies drop(#[trigger] all[i]) by {
            if i < a.len() {
                assert(is_white(a[i]));
            } else {
                assert(is_white(b[i - a.len()]));
            }
        }
        law_trimming_the_start(all, m, drop);
        assert(trim_end(m, drop) == m);
    }
}

/// No piece of a text holds the separator, and the pieces with the separator between each two are the
/// text.
pub proof fn law_pieces_stand_between_separators(s: Seq<char>, sep: char, i: int)
    requires
        0 <= i < split(s, sep).len(),
    ensures
        !split(s, sep)[i].contains(sep),
        join(split(s, sep), seq![sep]) == s,
    decreases s.len(),
{
    lemma_join_split(s, sep);
    if s.len() > 0 {
        let before = s.drop_last();
        let pieces = split(before, sep);
        lemma_split_nonempty(before, sep);
        if i < pieces.len() {
            law_pieces_stand_between_separators(before, sep, i);
        }
        let p = split(s, sep)[i];
        if p.contains(sep) {
            let k = p.index_of(sep);
            assert(p[k] == sep);
            if s.last() == sep {
                assert(i < pieces.len() ==> p == pieces[i]);
            } else if i == pieces.len() - 1 {
                assert(p == pieces.last().push(s.last()));
                assert(pieces[i][k] == sep);
            } else {
                assert(p == pieces[i]);
            }
        }
    }
}

/// Pieces are put one behind the other, with the separator before each but the first.
pub proof fn law_joining(pieces: Seq<Seq<char>>, piece: Seq<char>, sep: Seq<char>)
    ensures
        join(Seq::empty(), sep) == Seq::<char>::empty(),
        join(seq![piece], sep) == piece,
        pieces.len() > 0 ==> join(pieces.push(piece), sep) == join(pieces, sep) + sep + piece,
{
    assert(pieces.push(piece).drop_last() =~= pieces);
}

/// What stands before a separator and what follows it are split as they are by themselves.
pub proof fn law_split_at_a_separator(a: Seq<char>, b: Seq<char>, sep: char)
    ensures
        split(a.push(sep) + b, sep) == split(a, sep) + split(b, sep),
    decreases b.len(),
{
    let whole = a.push(sep) + b;
    let before = split(a, sep);
    if b.len() == 0 {
        assert(whole.drop_last() =~= a);
        assert(b =~= Seq::empty());
        assert(split(whole, sep) =~= before + split(b, sep));
    } else {
        let front = b.drop_last();
        law_split_at_a_separator(a, front, sep);
        lemma_split_nonempty(front, sep);
        assert(whole.drop_last() =~= a.push(sep) + front);
        assert(whole.last() == b.last());
        let pieces = before + split(front, sep);
        assert(pieces.last() == split(front, sep).last());
        assert(pieces.drop_last() =~= before + split(front, sep).drop_last());
        assert(split(whole, sep) =~= before + split(b, sep));
    }
}

/// A line ends at the first line feed, or at a carriage return right before it, and the lines behind
/// are those of what follows. Without a line feed a text is a line, and without anything it is none.
pub proof fn law_lines_end_at_line_feeds(a: Seq<char>, b: Seq<char>)
    requires
        !a.contains('\n'),
    ensures
        lines(a.push('\n') + b) == seq![
            if a.len() > 0 && a.last() == '\r' {
                a.drop_last()
            } else {
                a
            },
        ] + lines(b),
        a.len() > 0 ==> lines(a) == seq![a],
        lines(Seq::empty()) == Seq::<Seq<char>>::empty(),
{
    law_split_at_a_separator(a, b, '\n');
    lemma_split_nonempty(b, '\n');
    lemma_split_whole(a, '\n');
    let pieces = split(a.push('\n') + b, '\n');
    assert(pieces.last() == split(b, '\n').last());
    assert(pieces.drop_last() =~= seq![a] + split(b, '\n').drop_last());
    let strip = |p: Seq<char>| strip_cr(p);
    assert((seq![a] + split(b, '\n').drop_last()).map_values(strip) =~= seq![strip_cr(a)] + split(
        b,
        '\n',
    ).drop_last().map_values(strip));
    assert(lines(a.push('\n') + b) =~= seq![strip_cr(a)] + lines(b));
    assert(split(a, '\n').drop_last() =~= Seq::empty());
    assert(lines(a) =~= if a.len() == 0 {
        Seq::<Seq<char>>::empty()
    } else {
        seq![a]
    });
    let none = Seq::<char>::empty();
    assert(split(none, '\n') =~= seq![none]);
    assert(lines(none) =~= Seq::empty());
}

/// A text in a field stands at its edge, and blanks fill the rest; one that is too long is kept whole.
pub proof fn law_fields_are_filled_with_blanks(s: Seq<char>, width: int, i: int)
    ensures
        pad_right(s, width).len() == pad_left(s, width).len(),
        pad_left(s, width).len() == if s.len() >= width {
            s.len() as int
        } else {
            width
        },
        s.is_prefix_of(pad_right(s, width)),
        s.is_suffix_of(pad_left(s, width)),
        s.len() <= i < width ==> pad_right(s, width)[i] == ' ',
        0 <= i < width - s.len() ==> pad_left(s, width)[i] == ' ',
{
    let right = pad_right(s, width);
    let left = pad_left(s, width);
    assert(right.subrange(0, s.len() as int) =~= s);
    assert(left.subrange(left.len() - s.len(), left.len() as int) =~= s);
}

/// Strings, runs and words show what they spell, each in its place.
pub proof fn law_texts_are_shown(v: Seq<String>, r: Seq<Vec<char>>, w: Seq<&str>, i: int)
    ensures
        texts(v).len() == v.len(),
        runs(r).len() == r.len(),
        words(w).len() == w.len(),
        0 <= i < v.len() ==> texts(v)[i] == v[i]@,
        0 <= i < r.len() ==> runs(r)[i] == r[i]@,
        0 <= i < w.len() ==> words(w)[i] == w[i]@,
{
}

/// An optional text is there where it is given.
pub proof fn law_optional_texts_are_shown(s: Option<&str>, t: Option<String>)
    ensures
        s matches Some(x) ==> optional(s) == Some(x@),
        s is None ==> optional(s) is None,
        t matches Some(x) ==> optional_string(t) == Some(x@),
        t is None ==> optional_string(t) is None,
{
}

/// Texts are searched, trimmed and split as stated.
pub proof fn law_texts_are_searched_and_split(
    s: &[char],
    p: &[char],
    found: bool,
    begins: bool,
    finishes: bool,
    low: Vec<char>,
    bare: &[char],
    sep: char,
    pieces: Vec<Vec<char>>,
    line_list: Vec<Vec<char>>,
    nothing: bool,
)
    requires
        call_ensures(contains, (s, p), found),
        call_ensures(begins_with, (s, p), begins),
        call_ensures(finishes_with, (s, p), finishes),
        call_ensures(to_lower, (s,), low),
        call_ensures(trimmed, (s,), bare),
        call_ensures(split_at, (s, sep), pieces),
        call_ensures(lines_of, (s,), line_list),
        call_ensures(is_blank, (s,), nothing),
    ensures
        found <==> occurs(p@, s@),
        begins <==> p@.is_prefix_of(s@),
        finishes <==> p@.is_suffix_of(s@),
        low@ == lower(s@),
        bare@ == trim(s@),
        runs(pieces@) == split(s@, sep),
        runs(line_list@) == lines(s@),
        nothing <==> trim(s@).len() == 0,
{
    lemma_blank_trim(s@);
}

/// Nothing is left of a text that is blank, and something of any other.
proof fn lemma_blank_trim(s: Seq<char>)
    ensures
        blank(s) <==> trim(s).len() == 0,
{
    let drop = |c: char| is_white(c);
    let none = Seq::<char>::empty();
    if blank(s) {
        assert(s + none =~= s);
        law_trimming_the_start(s, none, drop);
        assert(trim_end(none, drop) == none);
    } else {
        let i = choose|i: int| 0 <= i < s.len() && !is_white(#[trigger] s[i]);
        lemma_start_kept(s, i);
        let t = trim_start(s, drop);
        let j = choose|j: int| 0 <= j < t.len() && !is_white(#[trigger] t[j]);
        lemma_end_kept(t, j);
    }
}

/// A character that is not white stays when the start is trimmed.
proof fn lemma_start_kept(s: Seq<char>, i: int)
    requires
        0 <= i < s.len(),
        !is_white(s[i]),
    ensures
        !blank(trim_start(s, |c: char| is_white(c))),
    decreases s.len(),
{
    let drop = |c: char| is_white(c);
    if drop(s[0]) {
        assert(s.drop_first()[i - 1] == s[i]);
        lemma_start_kept(s.drop_first(), i - 1);
    } else {
        assert(!is_white(trim_start(s, drop)[0]));
    }
}

/// A character that is not white stays when the end is trimmed.
proof fn lemma_end_kept(s: Seq<char>, i: int)
    requires
        0 <= i < s.len(),
        !is_white(s[i]),
    ensures
        trim_end(s, |c: char| is_white(c)).len() > 0,
    decreases s.len(),
{
    let drop = |c: char| is_white(c);
    if drop(s.last()) {
        assert(s.drop_last()[i] == s[i]);
        lemma_end_kept(s.drop_last(), i);
    }
}

} // verus!
