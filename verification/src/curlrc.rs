//! curl's own configuration, for tools that sanitize the CA variables out of their environment
//! before shelling out to it.

use crate::text;
use vstd::prelude::*;

verus! {

/// The line that what was added begins with.
pub open spec fn marker() -> Seq<char> {
    "# added by cicache"@
}

/// What is added: the marker, and a line that names the bundle.
pub open spec fn addition(bundle: Seq<char>) -> Seq<char> {
    marker() + "\ncacert = "@ + bundle + "\n"@
}

/// A text whose last line is ended, if it has any.
pub open spec fn ended(s: Seq<char>) -> Seq<char> {
    if s.len() > 0 && s.last() != '\n' {
        s + "\n"@
    } else {
        s
    }
}

/// Points curl's configuration at the bundle. Returns what the file is to hold, or `None` where it
/// was pointed there before.
pub fn write_curlrc(existing: &str, bundle: &str) -> (out: Option<String>)
    ensures
        out is Some == !text::occurs(marker(), existing@),
        out matches Some(contents) ==> contents@ == ended(existing@) + addition(bundle@),
{
    let chars = text::to_chars(existing);
    let marker = text::to_chars("# added by cicache");
    if text::contains(chars.as_slice(), marker.as_slice()) {
        return None;
    }
    let mut contents = String::new();
    contents.append(existing);
    assert(contents@ =~= existing@);
    let len = chars.len();
    if len > 0 && chars[len - 1] != '\n' {
        contents.append("\n");
    }
    assert(contents@ == ended(existing@));
    let ghost kept = contents@;
    contents.append("# added by cicache");
    contents.append("\ncacert = ");
    contents.append(bundle);
    contents.append("\n");
    assert(contents@ =~= kept + addition(bundle@));
    Some(contents)
}

/// The pieces between line feeds without what was added: each line that is the marker, and the line
/// behind it where that names a bundle. All else is verbatim.
pub open spec fn stripped(pieces: Seq<Seq<char>>, behind_marker: bool) -> Seq<char>
    decreases pieces.len(),
{
    if pieces.len() == 0 {
        Seq::empty()
    } else if text::strip_cr(pieces[0]) == marker() {
        stripped(pieces.skip(1), true)
    } else if behind_marker && "cacert = "@.is_prefix_of(pieces[0]) {
        stripped(pieces.skip(1), false)
    } else {
        pieces[0] + (if pieces.len() > 1 {
            "\n"@
        } else {
            Seq::empty()
        }) + stripped(pieces.skip(1), false)
    }
}

/// The text of a file without what was added.
pub open spec fn cleared(contents: Seq<char>) -> Seq<char> {
    stripped(text::split(contents, '\n'), false)
}

/// What becomes of the file.
#[derive(Debug)]
pub enum Clearing {
    /// Nothing was added to it.
    Leave,
    /// Nothing but blanks is left of it.
    Remove,
    /// It is to hold this.
    Write(String),
}

/// Removes what `write_curlrc` added, leaving anything else in the file alone.
pub fn clear_curlrc(contents: &str) -> (out: Clearing)
    ensures
        out is Leave <==> !text::occurs(marker(), contents@),
        out is Remove <==> text::occurs(marker(), contents@) && text::blank(cleared(contents@)),
        out matches Clearing::Write(s) ==> s@ == cleared(contents@),
{
    let chars = text::to_chars(contents);
    let marker = text::to_chars("# added by cicache");
    if !text::contains(chars.as_slice(), marker.as_slice()) {
        return Clearing::Leave;
    }
    let named = text::to_chars("cacert = ");
    let lines = text::split_at(chars.as_slice(), '\n');
    let ghost pieces = text::runs(lines@);
    let mut out = String::new();
    let mut behind_marker = false;
    let mut i: usize = 0;
    assert(pieces.skip(0) =~= pieces);
    assert(out@ + stripped(pieces.skip(0), false) =~= stripped(pieces, false));
    while i < lines.len()
        invariant
            i <= lines.len(),
            pieces == text::runs(lines@),
            marker@ == self::marker(),
            named@ == "cacert = "@,
            out@ + stripped(pieces.skip(i as int), behind_marker) == stripped(pieces, false),
        decreases lines.len() - i,
    {
        let ghost left = pieces.skip(i as int);
        let ghost had = out@;
        assert(left[0] == lines@[i as int]@);
        assert(left.skip(1) =~= pieces.skip(i + 1));
        let line = lines[i].as_slice();
        if text::same(text::without_cr(line), marker.as_slice()) {
            behind_marker = true;
        } else if behind_marker && text::begins_with(line, named.as_slice()) {
            behind_marker = false;
        } else {
            let line = text::from_chars(line);
            out.append(line.as_str());
            if i + 1 < lines.len() {
                out.append("\n");
            } else {
                assert(out@ + Seq::<char>::empty() =~= out@);
            }
            assert(out@ + stripped(left.skip(1), false) =~= had + stripped(left, behind_marker));
            behind_marker = false;
        }
        i += 1;
    }
    assert(out@ + Seq::<char>::empty() =~= out@);
    let kept = text::to_chars(out.as_str());
    if text::is_blank(kept.as_slice()) {
        Clearing::Remove
    } else {
        Clearing::Write(out)
    }
}

/// What is left of pieces among which there is no marker is all of them.
proof fn lemma_nothing_to_strip(pieces: Seq<Seq<char>>, tail: Seq<Seq<char>>)
    requires
        forall|i: int| 0 <= i < pieces.len() ==> text::strip_cr(#[trigger] pieces[i]) != marker(),
        tail.len() > 0,
    ensures
        stripped(pieces + tail, false) == text::join(pieces.push(Seq::empty()), "\n"@) + stripped(
            tail,
            false,
        ),
    decreases pieces.len(),
{
    let all = pieces + tail;
    reveal_strlit("\n");
    if pieces.len() == 0 {
        assert(all =~= tail);
        assert(pieces.push(Seq::empty())[0] =~= Seq::<char>::empty());
        assert(stripped(all, false) =~= text::join(pieces.push(Seq::empty()), "\n"@) + stripped(
            tail,
            false,
        ));
    } else {
        let rest = pieces.skip(1);
        assert forall|i: int| 0 <= i < rest.len() implies text::strip_cr(#[trigger] rest[i])
            != marker() by {
            assert(rest[i] == pieces[i + 1]);
        }
        lemma_nothing_to_strip(rest, tail);
        assert(all.skip(1) =~= rest + tail);
        assert(all[0] == pieces[0]);
        assert(text::strip_cr(pieces[0]) != marker());
        text::lemma_join_front(pieces.push(Seq::empty()), "\n"@);
        assert(pieces.push(Seq::empty()).skip(1) =~= rest.push(Seq::empty()));
        assert(stripped(all, false) =~= text::join(pieces.push(Seq::empty()), "\n"@) + stripped(
            tail,
            false,
        ));
    }
}

/// Removing undoes adding: where nothing had been added before, what is left is what was there, with
/// its last line ended. The path of the bundle is one line.
pub proof fn law_clearing_undoes_writing(existing: Seq<char>, bundle: Seq<char>)
    requires
        !text::occurs(marker(), existing),
        !bundle.contains('\n'),
    ensures
        text::occurs(marker(), ended(existing) + addition(bundle)),
        cleared(ended(existing) + addition(bundle)) == ended(existing),
{
    reveal_strlit("# added by cicache");
    reveal_strlit("\ncacert = ");
    reveal_strlit("cacert = ");
    reveal_strlit("\n");
    let base = ended(existing);
    let whole = base + addition(bundle);
    let n = base.len() as int;
    assert(whole.subrange(n, n + marker().len()) =~= marker());

    let line = "cacert = "@ + bundle;
    assert(!marker().contains('\n'));
    assert(!line.contains('\n')) by {
        if line.contains('\n') {
            let k = line.index_of('\n');
            if k >= 9 {
                assert(bundle[k - 9] == '\n');
            }
        }
    }
    let nothing = Seq::<char>::empty();
    let tail = seq![marker(), line, nothing];
    let lines = text::split(base, '\n').drop_last();
    text::lemma_split_nonempty(base, '\n');
    // The text ends in three pieces behind those of what was there.
    let first = if n == 0 {
        marker()
    } else {
        base + marker()
    };
    if n == 0 {
        assert(base =~= nothing);
        text::lemma_split_whole(marker(), '\n');
        assert(lines =~= Seq::empty());
        assert(text::split(first, '\n') =~= lines.push(marker()));
    } else {
        assert(base.last() == '\n');
        assert(base =~= base.drop_last().push('\n'));
        text::lemma_split_last(base.drop_last(), marker(), '\n');
        assert(text::split(base, '\n') =~= text::split(base.drop_last(), '\n').push(nothing));
        assert(lines =~= text::split(base.drop_last(), '\n'));
        assert(text::split(first, '\n') =~= lines.push(marker()));
    }
    assert(first =~= base + marker());
    text::lemma_split_last(first, line, '\n');
    text::lemma_split_last(first.push('\n') + line, nothing, '\n');
    assert(whole =~= (first.push('\n') + line).push('\n') + nothing);
    assert(text::split(whole, '\n') =~= lines + tail);
    // None of the pieces before them is the marker.
    assert forall|i: int| 0 <= i < lines.len() implies text::strip_cr(#[trigger] lines[i])
        != marker() by {
        if text::strip_cr(lines[i]) == marker() {
            text::lemma_piece_occurs(base, '\n', i);
            let p = lines[i];
            let at = choose|at: int|
                0 <= at <= base.len() - p.len() && #[trigger] base.subrange(at, at + p.len()) == p;
            assert(base.subrange(at, at + marker().len()) =~= marker()) by {
                assert(p.take(marker().len() as int) =~= marker());
                assert(base.subrange(at, at + marker().len()) =~= base.subrange(
                    at,
                    at + p.len(),
                ).take(marker().len() as int));
            }
            if at + marker().len() <= existing.len() {
                assert(existing.subrange(at, at + marker().len()) =~= marker());
            } else {
                assert(base.subrange(at, at + marker().len())[marker().len() - 1] == '\n');
            }
        }
    }
    lemma_nothing_to_strip(lines, tail);
    assert(tail.skip(1) =~= seq![line, nothing]);
    assert(tail.skip(1).skip(1) =~= seq![nothing]);
    assert(tail.skip(1).skip(1).skip(1) =~= Seq::empty());
    assert(text::strip_cr(marker()) == marker());
    assert(text::strip_cr(line) != marker()) by {
        assert(text::strip_cr(line)[0] == 'c');
    }
    assert("cacert = "@.is_prefix_of(line)) by {
        assert(line.subrange(0, 9) =~= "cacert = "@);
    }
    assert(seq![nothing].skip(1) =~= Seq::empty());
    assert(stripped(seq![nothing].skip(1), false) =~= nothing);
    assert(stripped(seq![nothing], false) =~= nothing);
    assert(stripped(seq![line, nothing], true) == stripped(seq![nothing], false));
    assert(stripped(tail, false) =~= nothing);
    text::lemma_join_split(base, '\n');
    assert(text::split(base, '\n').last() =~= nothing) by {
        if n == 0 {
            text::lemma_split_whole(base, '\n');
        }
    }
    assert(lines.push(nothing) =~= text::split(base, '\n'));
    assert("\n"@ =~= seq!['\n']);
    assert(cleared(whole) =~= base);
}

/// A file in which no line is the marker is left as it is.
pub proof fn law_other_lines_are_left_alone(contents: Seq<char>)
    requires
        forall|i: int|
            0 <= i < text::split(contents, '\n').len() ==> text::strip_cr(
                #[trigger] text::split(contents, '\n')[i],
            ) != marker(),
    ensures
        cleared(contents) == contents,
{
    let pieces = text::split(contents, '\n');
    text::lemma_split_nonempty(contents, '\n');
    text::lemma_join_split(contents, '\n');
    reveal_strlit("\n");
    assert("\n"@ =~= seq!['\n']);
    let front = pieces.drop_last();
    let tail = seq![pieces.last()];
    let nothing = Seq::<char>::empty();
    assert(pieces[pieces.len() - 1] == pieces.last());
    assert(text::strip_cr(pieces[pieces.len() - 1]) != marker());
    assert forall|i: int| 0 <= i < front.len() implies text::strip_cr(#[trigger] front[i])
        != marker() by {
        assert(front[i] == pieces[i]);
    }
    lemma_nothing_to_strip(front, tail);
    assert(front + tail =~= pieces);
    assert(tail.skip(1) =~= Seq::empty());
    assert(stripped(tail.skip(1), false) =~= nothing);
    assert(stripped(tail, false) =~= pieces.last());
    let ends = front.push(nothing);
    assert(ends.drop_last() =~= front);
    if front.len() == 0 {
        assert(text::join(ends, "\n"@) =~= nothing);
        assert(text::join(pieces, "\n"@) =~= pieces.last());
    } else {
        assert(text::join(ends, "\n"@) =~= text::join(front, "\n"@) + "\n"@);
        assert(text::join(pieces, "\n"@) =~= text::join(front, "\n"@) + "\n"@ + pieces.last());
    }
    assert(cleared(contents) =~= contents);
}

/// What is added is two lines: one by which it is found again, and one that names the bundle. It stands
/// behind what was there, on lines of its own.
pub proof fn law_what_is_added(existing: Seq<char>, bundle: Seq<char>)
    ensures
        marker() == "# added by cicache"@,
        addition(bundle) == "# added by cicache\ncacert = "@ + bundle + seq!['\n'],
        existing.len() == 0 ==> ended(existing) == existing,
        existing.len() > 0 && existing.last() == '\n' ==> ended(existing) == existing,
        existing.len() > 0 && existing.last() != '\n' ==> ended(existing) == existing.push('\n'),
{
    reveal_strlit("# added by cicache");
    reveal_strlit("\ncacert = ");
    reveal_strlit("# added by cicache\ncacert = ");
    reveal_strlit("\n");
    assert("\n"@ =~= seq!['\n']);
    assert("# added by cicache"@ + "\ncacert = "@ =~= "# added by cicache\ncacert = "@);
    assert(addition(bundle) =~= "# added by cicache\ncacert = "@ + bundle + seq!['\n']);
    assert(existing + "\n"@ =~= existing.push('\n'));
}

/// What was added is removed wherever in the file it stands, and everything before and behind it is
/// left as it is, to the last character. The path of the bundle is one line.
pub proof fn law_only_what_was_added_is_removed(
    front: Seq<char>,
    bundle: Seq<char>,
    back: Seq<char>,
)
    requires
        front.len() == 0 || front.last() == '\n',
        !bundle.contains('\n'),
        forall|i: int|
            0 <= i < text::split(front, '\n').len() ==> text::strip_cr(
                #[trigger] text::split(front, '\n')[i],
            ) != marker(),
        forall|i: int|
            0 <= i < text::split(back, '\n').len() ==> text::strip_cr(
                #[trigger] text::split(back, '\n')[i],
            ) != marker(),
    ensures
        cleared(front + ("# added by cicache\ncacert = "@ + bundle + seq!['\n']) + back) == front
            + back,
{
    law_what_is_added(front, bundle);
    reveal_strlit("# added by cicache");
    reveal_strlit("\ncacert = ");
    reveal_strlit("cacert = ");
    reveal_strlit("\n");
    assert("\n"@ =~= seq!['\n']);
    let whole = front + addition(bundle) + back;
    let line = "cacert = "@ + bundle;
    assert(!marker().contains('\n'));
    assert(!line.contains('\n')) by {
        if line.contains('\n') {
            let k = line.index_of('\n');
            if k >= 9 {
                assert(bundle[k - 9] == '\n');
            }
        }
    }
    let last = text::split(back, '\n');
    let inner = line.push('\n') + back;
    let added = marker().push('\n') + inner;
    text::law_split_at_a_separator(line, back, '\n');
    text::lemma_split_whole(line, '\n');
    text::law_split_at_a_separator(marker(), inner, '\n');
    text::lemma_split_whole(marker(), '\n');
    let tail = text::split(added, '\n');
    assert(tail == seq![marker()] + (seq![line] + last));
    assert(tail.skip(1) =~= seq![line] + last);
    assert(tail.skip(1).skip(1) =~= last);
    assert(tail[0] == marker());
    assert(tail.skip(1)[0] == line);
    text::lemma_split_nonempty(back, '\n');
    assert(text::strip_cr(marker()) == marker());
    assert(text::strip_cr(line)[0] == 'c');
    assert(line.subrange(0, 9) =~= "cacert = "@);
    assert("cacert = "@.is_prefix_of(line));
    assert(marker()[0] == '#');
    assert(stripped(tail, false) == stripped(tail.skip(1), true));
    assert(stripped(tail.skip(1), true) == stripped(tail.skip(1).skip(1), false));
    law_other_lines_are_left_alone(back);
    let nothing = Seq::<char>::empty();
    if front.len() == 0 {
        assert(whole =~= added);
        assert(front + back =~= back);
    } else {
        let body = front.drop_last();
        let lines = text::split(body, '\n');
        assert(whole =~= body.push('\n') + added);
        text::law_split_at_a_separator(body, added, '\n');
        text::law_split_at_a_separator(body, nothing, '\n');
        assert(front =~= body.push('\n') + nothing);
        assert(text::split(nothing, '\n') =~= seq![nothing]);
        assert forall|i: int| 0 <= i < lines.len() implies text::strip_cr(#[trigger] lines[i])
            != marker() by {
            assert(text::split(front, '\n')[i] == lines[i]);
        }
        lemma_nothing_to_strip(lines, tail);
        text::lemma_split_nonempty(body, '\n');
        text::lemma_join_split(body, '\n');
        assert(lines.push(nothing).drop_last() =~= lines);
        assert(text::join(lines.push(nothing), "\n"@) =~= front);
        assert(cleared(whole) =~= front + back);
    }
}

/// The file is written where nothing was added to it before, and then holds what was there and what is
/// added. Clearing leaves a file alone to which nothing was added, and writes what is left of any other,
/// or removes it where that is blank.
pub proof fn law_files_are_written_and_cleared(
    existing: &str,
    bundle: &str,
    written: Option<String>,
    contents: &str,
    clearing: Clearing,
)
    requires
        call_ensures(write_curlrc, (existing, bundle), written),
        call_ensures(clear_curlrc, (contents,), clearing),
    ensures
        written is None <==> text::occurs("# added by cicache"@, existing@),
        written matches Some(s) ==> s@ == ended(existing@) + addition(bundle@),
        clearing is Leave <==> !text::occurs("# added by cicache"@, contents@),
        clearing is Remove <==> text::occurs("# added by cicache"@, contents@) && text::blank(
            cleared(contents@),
        ),
        clearing matches Clearing::Write(s) ==> s@ == cleared(contents@),
{
}

/// The lines of a file are looked at one by one. One that marks what was added is left out, a carriage
/// return at its end aside, and so is the next where it names a bundle; every other is kept, with the
/// line feed that ends it.
pub proof fn law_lines_are_cleared_one_by_one(
    contents: Seq<char>,
    line: Seq<char>,
    rest: Seq<Seq<char>>,
    behind: bool,
)
    ensures
        cleared(contents) == stripped(text::split(contents, '\n'), false),
        stripped(Seq::empty(), behind).len() == 0,
        ({
            let whole = seq![line] + rest;
            let marks = line == "# added by cicache"@ || line == "# added by cicache"@.push('\r');
            let names = behind && "cacert = "@.is_prefix_of(line);
            &&& marks ==> stripped(whole, behind) == stripped(rest, true)
            &&& !marks && names ==> stripped(whole, behind) == stripped(rest, false)
            &&& !marks && !names && rest.len() > 0 ==> stripped(whole, behind) == line.push('\n')
                + stripped(rest, false)
            &&& !marks && !names && rest.len() == 0 ==> stripped(whole, behind) == line
        }),
{
    reveal_strlit("# added by cicache");
    reveal_strlit("\n");
    let whole = seq![line] + rest;
    let mark = "# added by cicache"@;
    assert(whole.skip(1) =~= rest);
    assert(whole[0] == line);
    assert(mark.push('\r').drop_last() =~= mark);
    assert(mark.last() != '\r');
    if text::strip_cr(line) == mark && line != mark {
        assert(line =~= line.drop_last().push('\r'));
    }
    assert(line + "\n"@ =~= line.push('\n'));
    if rest.len() == 0 {
        assert(stripped(rest, false) =~= Seq::<char>::empty());
        assert(line + Seq::<char>::empty() + Seq::<char>::empty() =~= line);
    }
}

} // verus!
