//! Shell scripts, line by line.

use vstd::prelude::*;
use vstd::string::*;

verus! {

/// Where the first line of `s` ends: at the first line feed, or else at the end of `s`.
pub open spec fn line_end(s: Seq<char>) -> int
    decreases s.len(),
{
    if s.len() == 0 || s[0] == '\n' {
        0
    } else {
        1 + line_end(s.drop_first())
    }
}

/// A line without the carriage return that belongs to its line ending.
pub open spec fn strip_cr(line: Seq<char>) -> Seq<char> {
    if line.len() > 0 && line.last() == '\r' {
        line.drop_last()
    } else {
        line
    }
}

/// The lines of a text. A line ends with a line feed, or with a carriage return and a line feed;
/// the last line needs no ending.
pub open spec fn lines(s: Seq<char>) -> Seq<Seq<char>>
    decreases s.len(),
{
    if s.len() == 0 {
        Seq::empty()
    } else if line_end(s) < 0 || line_end(s) >= s.len() {
        seq![s]
    } else {
        seq![strip_cr(s.take(line_end(s)))] + lines(s.skip(line_end(s) + 1))
    }
}

/// Whether `pattern` occurs in `line`.
pub open spec fn has(line: Seq<char>, pattern: Seq<char>) -> bool {
    exists|i: int|
        0 <= i <= line.len() - pattern.len() && #[trigger] line.subrange(i, i + pattern.len())
            == pattern
}

/// Whether a line of a setup script undoes something: it deletes or flushes rules.
pub open spec fn undoes(line: Seq<char>) -> bool {
    has(line, "-D"@) || has(line, "del"@) || has(line, "flush"@)
}

/// Lines joined by line feeds.
pub open spec fn join_lines(ls: Seq<Seq<char>>) -> Seq<char>
    decreases ls.len(),
{
    if ls.len() == 0 {
        Seq::empty()
    } else if ls.len() == 1 {
        ls[0]
    } else {
        join_lines(ls.drop_last()) + "\n"@ + ls.last()
    }
}

/// The lines of a script that undo something, in order.
pub open spec fn undoing_lines(script: Seq<char>) -> Seq<Seq<char>> {
    lines(script).filter(|line: Seq<char>| undoes(line))
}

proof fn lemma_line_end(s: Seq<char>)
    ensures
        0 <= line_end(s) <= s.len(),
        line_end(s) < s.len() ==> s[line_end(s)] == '\n',
        forall|i: int| 0 <= i < line_end(s) ==> s[i] != '\n',
    decreases s.len(),
{
    if s.len() > 0 && s[0] != '\n' {
        lemma_line_end(s.drop_first());
        assert forall|i: int| 0 <= i < line_end(s) implies s[i] != '\n' by {
            if i > 0 {
                assert(s[i] == s.drop_first()[i - 1]);
            }
        }
    }
}

proof fn lemma_line_end_is(s: Seq<char>, k: int)
    requires
        0 <= k <= s.len(),
        k < s.len() ==> s[k] == '\n',
        forall|i: int| 0 <= i < k ==> s[i] != '\n',
    ensures
        line_end(s) == k,
{
    lemma_line_end(s);
    if line_end(s) < k {
        assert(s[line_end(s)] != '\n');
    }
}

/// The characters of a string.
fn chars_of(s: &str) -> (v: Vec<char>)
    ensures
        v@ == s@,
{
    let mut v: Vec<char> = Vec::new();
    for c in it: s.chars()
        invariant
            v@ == s@.take(it.index() as int),
            it.seq() == s@,
    {
        v.push(c);
        assert(s@.take(it.index() + 1) =~= s@.take(it.index() as int).push(c));
    }
    assert(s@.take(s@.len() as int) =~= s@);
    v
}

/// Finds where the line that starts at `start` ends.
fn find_line_end(chars: &Vec<char>, start: usize) -> (end: usize)
    requires
        start <= chars@.len(),
    ensures
        start <= end <= chars@.len(),
        end - start == line_end(chars@.skip(start as int)),
{
    let mut end: usize = start;
    while end < chars.len() && chars[end] != '\n'
        invariant
            start <= end <= chars@.len(),
            forall|i: int| start <= i < end ==> chars@[i] != '\n',
        decreases chars@.len() - end,
    {
        end = end + 1;
    }
    proof {
        lemma_line_end_is(chars@.skip(start as int), end - start);
    }
    end
}

/// Whether `pattern` stands at position `at`.
fn stands_at(chars: &Vec<char>, at: usize, pattern: &[char]) -> (b: bool)
    requires
        at + pattern@.len() <= chars@.len(),
    ensures
        b == (chars@.subrange(at as int, at + pattern@.len()) == pattern@),
{
    let len: usize = chars.len();
    let mut j: usize = 0;
    while j < pattern.len()
        invariant
            j <= pattern@.len(),
            len == chars@.len(),
            at + pattern@.len() <= len,
            forall|k: int| 0 <= k < j ==> chars@[at + k] == pattern@[k],
        decreases pattern@.len() - j,
    {
        if chars[at + j] != pattern[j] {
            assert(chars@.subrange(at as int, at + pattern@.len())[j as int] != pattern@[j as int]);
            return false;
        }
        j = j + 1;
    }
    assert(chars@.subrange(at as int, at + pattern@.len()) =~= pattern@);
    true
}

/// Whether `pattern` occurs between two positions.
fn occurs(chars: &Vec<char>, from: usize, to: usize, pattern: &[char]) -> (b: bool)
    requires
        from <= to <= chars@.len(),
        pattern@.len() > 0,
    ensures
        b == has(chars@.subrange(from as int, to as int), pattern@),
{
    let ghost line = chars@.subrange(from as int, to as int);
    let mut i: usize = from;
    while to - i >= pattern.len()
        invariant
            from <= i <= to <= chars@.len(),
            pattern@.len() > 0,
            line == chars@.subrange(from as int, to as int),
            forall|k: int|
                0 <= k < i - from ==> #[trigger] line.subrange(k, k + pattern@.len()) != pattern@,
        decreases to - i,
    {
        assert(line.subrange(i - from, i - from + pattern@.len()) =~= chars@.subrange(
            i as int,
            i + pattern@.len(),
        ));
        if stands_at(chars, i, pattern) {
            return true;
        }
        i = i + 1;
    }
    false
}

/// Whether the line between two positions undoes something.
fn line_undoes(chars: &Vec<char>, from: usize, to: usize) -> (b: bool)
    requires
        from <= to <= chars@.len(),
    ensures
        b == undoes(chars@.subrange(from as int, to as int)),
{
    let delete_flag: [char; 2] = ['-', 'D'];
    let delete_word: [char; 3] = ['d', 'e', 'l'];
    let flush_word: [char; 5] = ['f', 'l', 'u', 's', 'h'];
    proof {
        reveal_strlit("-D");
        reveal_strlit("del");
        reveal_strlit("flush");
        assert(delete_flag@ =~= "-D"@);
        assert(delete_word@ =~= "del"@);
        assert(flush_word@ =~= "flush"@);
    }
    occurs(chars, from, to, &delete_flag) || occurs(chars, from, to, &delete_word) || occurs(
        chars,
        from,
        to,
        &flush_word,
    )
}

proof fn lemma_filter_push(ls: Seq<Seq<char>>, line: Seq<char>)
    ensures
        ls.push(line).filter(|l: Seq<char>| undoes(l)) == (if undoes(line) {
            ls.filter(|l: Seq<char>| undoes(l)).push(line)
        } else {
            ls.filter(|l: Seq<char>| undoes(l))
        }),
{
    reveal(Seq::filter);
    assert(ls.push(line).drop_last() =~= ls);
}

/// The part of a setup script that undoes what the script sets up: its lines that delete or
/// flush something, joined by line feeds.
pub fn undoing_script(script: &str) -> (r: String)
    ensures
        r@ == join_lines(undoing_lines(script@)),
{
    let chars: Vec<char> = chars_of(script);
    let mut out: String = String::new();
    let mut any: bool = false;
    let mut start: usize = 0;
    let ghost mut seen: Seq<Seq<char>> = Seq::empty();
    proof {
        reveal(Seq::filter);
        assert(script@.skip(0) =~= script@);
        assert(seen + lines(script@) =~= lines(script@));
    }
    while start < chars.len()
        invariant
            chars@ == script@,
            start <= script@.len(),
            seen + lines(script@.skip(start as int)) == lines(script@),
            out@ == join_lines(seen.filter(|l: Seq<char>| undoes(l))),
            any == (seen.filter(|l: Seq<char>| undoes(l)).len() > 0),
        decreases script@.len() - start,
    {
        let ghost rest = script@.skip(start as int);
        let end: usize = find_line_end(&chars, start);
        let stop: usize = if end < chars.len() && start < end && chars[end - 1] == '\r' {
            end - 1
        } else {
            end
        };
        let ghost line = script@.subrange(start as int, stop as int);
        let ghost kept = seen.filter(|l: Seq<char>| undoes(l));
        proof {
            lemma_filter_push(seen, line);
            if end < script@.len() {
                assert(rest.take(end - start) =~= script@.subrange(start as int, end as int));
                assert(line =~= strip_cr(rest.take(end - start)));
                assert(rest.skip(end - start + 1) =~= script@.skip(end + 1));
            } else {
                assert(line =~= rest);
                assert(script@.skip(end as int) =~= Seq::<char>::empty());
            }
        }
        if line_undoes(&chars, start, stop) {
            if any {
                out.append("\n");
            }
            out.append(script.substring_char(start, stop));
            any = true;
            proof {
                assert(kept.push(line).drop_last() =~= kept);
                assert(out@ =~= join_lines(kept.push(line)));
            }
        }
        start = if end < chars.len() {
            end + 1
        } else {
            end
        };
        proof {
            seen = seen.push(line);
            assert(seen + lines(script@.skip(start as int)) =~= lines(script@));
        }
    }
    assert(script@.skip(start as int) =~= Seq::<char>::empty());
    assert(seen + lines(script@.skip(start as int)) =~= seen);
    out
}

/// Whether a line holds no line feed.
pub open spec fn single(line: Seq<char>) -> bool {
    forall|i: int| 0 <= i < line.len() ==> line[i] != '\n'
}

proof fn lemma_lines_are_single(s: Seq<char>)
    ensures
        forall|i: int| 0 <= i < lines(s).len() ==> single(#[trigger] lines(s)[i]),
    decreases s.len(),
{
    if s.len() > 0 {
        lemma_line_end(s);
        if line_end(s) < s.len() {
            let rest = lines(s.skip(line_end(s) + 1));
            lemma_lines_are_single(s.skip(line_end(s) + 1));
            assert forall|i: int| 0 <= i < lines(s).len() implies single(#[trigger] lines(s)[i]) by {
                if i > 0 {
                    assert(lines(s)[i] == rest[i - 1]);
                }
            }
        }
    }
}

proof fn lemma_join_from_front(ls: Seq<Seq<char>>)
    requires
        ls.len() >= 2,
    ensures
        join_lines(ls) == ls[0] + "\n"@ + join_lines(ls.drop_first()),
    decreases ls.len(),
{
    let init = ls.drop_last();
    let tail = ls.drop_first();
    assert(tail.last() == ls.last());
    if ls.len() == 2 {
        assert(join_lines(init) == ls[0]);
        assert(join_lines(tail) == ls[1]);
        assert(join_lines(ls) =~= ls[0] + "\n"@ + join_lines(tail));
    } else {
        lemma_join_from_front(init);
        assert(init.drop_first() =~= tail.drop_last());
        assert(join_lines(ls) =~= ls[0] + "\n"@ + join_lines(tail));
    }
}

proof fn lemma_joined_lines_split(ls: Seq<Seq<char>>)
    requires
        forall|i: int|
            0 <= i < ls.len() ==> {
                &&& single(#[trigger] ls[i])
                &&& ls[i].len() > 0
                &&& i < ls.len() - 1 ==> ls[i].last() != '\r'
            },
    ensures
        lines(join_lines(ls)) == ls,
    decreases ls.len(),
{
    let s = join_lines(ls);
    if ls.len() == 0 {
        assert(lines(s) =~= ls);
    } else if ls.len() == 1 {
        assert(single(ls[0]));
        lemma_line_end_is(s, s.len() as int);
        assert(lines(s) =~= ls);
    } else {
        reveal_strlit("\n");
        let tail = ls.drop_first();
        lemma_join_from_front(ls);
        assert forall|i: int| 0 <= i < tail.len() implies {
            &&& single(#[trigger] tail[i])
            &&& tail[i].len() > 0
            &&& i < tail.len() - 1 ==> tail[i].last() != '\r'
        } by {
            assert(tail[i] == ls[i + 1]);
        }
        lemma_joined_lines_split(tail);
        let first = ls[0];
        assert(single(first));
        lemma_line_end_is(s, first.len() as int);
        assert(s.take(first.len() as int) =~= first);
        assert(s.skip(first.len() as int + 1) =~= join_lines(tail));
        assert(seq![first] + tail =~= ls);
    }
}

proof fn lemma_undoing_lines(script: Seq<char>)
    ensures
        forall|i: int|
            0 <= i < undoing_lines(script).len() ==> {
                &&& single(#[trigger] undoing_lines(script)[i])
                &&& undoing_lines(script)[i].len() > 0
                &&& undoes(undoing_lines(script)[i])
            },
{
    let kept = undoing_lines(script);
    let pred = |line: Seq<char>| undoes(line);
    lemma_lines_are_single(script);
    assert forall|i: int| 0 <= i < kept.len() implies {
        &&& single(#[trigger] kept[i])
        &&& kept[i].len() > 0
        &&& undoes(kept[i])
    } by {
        reveal_strlit("-D");
        reveal_strlit("del");
        reveal_strlit("flush");
        lines(script).lemma_filter_pred(pred, i);
        assert(pred(kept[i]));
        assert(lines(script).filter(pred).contains(kept[i]));
        lines(script).lemma_filter_contains_rev(pred, kept[i]);
        let j = choose|j: int| 0 <= j < lines(script).len() && lines(script)[j] == kept[i];
        assert(single(lines(script)[j]));
    }
}

/// A shell that runs the undoing script runs exactly the lines of the setup script that undo
/// something, in their order. This takes that no such line but the last ends in a carriage return
/// of its own, which would count as part of the line ending that follows it.
pub proof fn law_undoing_script_has_undoing_lines(script: Seq<char>)
    requires
        forall|i: int|
            0 <= i < undoing_lines(script).len() - 1 ==> (#[trigger] undoing_lines(
                script,
            )[i]).last() != '\r',
    ensures
        lines(join_lines(undoing_lines(script))) == undoing_lines(script),
{
    lemma_undoing_lines(script);
    lemma_joined_lines_split(undoing_lines(script));
}

/// The lines of a text are read off its front: a line up to its line feed, without a carriage
/// return before that, and then the lines of what follows. What is left without a line feed is a
/// line too, as it is.
pub proof fn law_lines_are_read_off_the_front(line: Seq<char>, rest: Seq<char>)
    requires
        single(line),
    ensures
        lines(Seq::empty()) == Seq::<Seq<char>>::empty(),
        line.len() > 0 ==> lines(line) == seq![line],
        line.len() == 0 || line.last() != '\r' ==> lines(line + seq!['\n'] + rest) == seq![line]
            + lines(rest),
        lines(line + seq!['\r', '\n'] + rest) == seq![line] + lines(rest),
{
    if line.len() > 0 {
        lemma_line_end_is(line, line.len() as int);
    }
    let plain = line + seq!['\n'] + rest;
    lemma_line_end_is(plain, line.len() as int);
    assert(plain.take(line.len() as int) =~= line);
    assert(plain.skip(line.len() as int + 1) =~= rest);
    let ended = line + seq!['\r', '\n'] + rest;
    let n = line.len() as int + 1;
    lemma_line_end_is(ended, n);
    assert(ended.take(n) =~= line.push('\r'));
    assert(line.push('\r').drop_last() =~= line);
    assert(ended.skip(n + 1) =~= rest);
}

/// Joined lines stand one after the other, with a line feed between any two.
pub proof fn law_joined_lines_follow_each_other(ls: Seq<Seq<char>>, line: Seq<char>)
    ensures
        join_lines(Seq::empty()) == Seq::<char>::empty(),
        join_lines(seq![line]) == line,
        ls.len() > 0 ==> join_lines(ls.push(line)) == join_lines(ls) + seq!['\n'] + line,
{
    reveal_strlit("\n");
    assert("\n"@ =~= seq!['\n']);
    assert(ls.push(line).drop_last() =~= ls);
}

/// Whether a word stands somewhere in a line.
pub open spec fn mentions(line: Seq<char>, word: Seq<char>) -> bool {
    exists|before: Seq<char>, after: Seq<char>| line == #[trigger] (before + word + after)
}

proof fn lemma_has_is_mentions(line: Seq<char>, word: Seq<char>)
    ensures
        has(line, word) == mentions(line, word),
{
    if has(line, word) {
        let i = choose|i: int|
            0 <= i <= line.len() - word.len() && #[trigger] line.subrange(i, i + word.len())
                == word;
        let before = line.take(i);
        let after = line.skip(i + word.len());
        assert(line =~= before + line.subrange(i, i + word.len()) + after);
        assert(line == before + word + after);
    }
    if mentions(line, word) {
        let (before, after) = choose|before: Seq<char>, after: Seq<char>|
            line == #[trigger] (before + word + after);
        let i = before.len() as int;
        assert(line.subrange(i, i + word.len()) =~= word);
    }
}

/// Whether `kept` are the lines of `ls` at the places `at`, in their order.
pub open spec fn stand_at(kept: Seq<Seq<char>>, ls: Seq<Seq<char>>, at: Seq<int>) -> bool {
    &&& at.len() == kept.len()
    &&& forall|j: int| 0 <= j < at.len() ==> 0 <= #[trigger] at[j] < ls.len()
    &&& forall|j: int| 0 <= j < at.len() ==> #[trigger] kept[j] == ls[at[j]]
    &&& forall|j: int, k: int| 0 <= j < k < at.len() ==> #[trigger] at[j] < #[trigger] at[k]
}

/// Whether a line stands at one of the places `at` exactly where it mentions one of three words.
spec fn chosen_by(
    ls: Seq<Seq<char>>,
    at: Seq<int>,
    a: Seq<char>,
    b: Seq<char>,
    c: Seq<char>,
) -> bool {
    forall|i: int|
        0 <= i < ls.len() ==> (#[trigger] at.contains(i) <==> mentions(ls[i], a) || mentions(
            ls[i],
            b,
        ) || mentions(ls[i], c))
}

proof fn lemma_filter_chooses(ls: Seq<Seq<char>>) -> (at: Seq<int>)
    ensures
        stand_at(ls.filter(|line: Seq<char>| undoes(line)), ls, at),
        chosen_by(ls, at, "-D"@, "del"@, "flush"@),
    decreases ls.len(),
{
    let pred = |line: Seq<char>| undoes(line);
    reveal(Seq::filter);
    if ls.len() == 0 {
        let at = Seq::<int>::empty();
        assert(ls.filter(pred) =~= Seq::<Seq<char>>::empty());
        at
    } else {
        let init = ls.drop_last();
        let last = ls.last();
        let n = init.len() as int;
        let before = lemma_filter_chooses(init);
        lemma_has_is_mentions(last, "-D"@);
        lemma_has_is_mentions(last, "del"@);
        lemma_has_is_mentions(last, "flush"@);
        let at = if undoes(last) {
            before.push(n)
        } else {
            before
        };
        assert(!before.contains(n)) by {
            if before.contains(n) {
                let j = before.index_of(n);
                assert(0 <= before[j] < init.len());
            }
        }
        assert forall|i: int| 0 <= i < ls.len() implies (#[trigger] at.contains(i) <==> mentions(
            ls[i],
            "-D"@,
        ) || mentions(ls[i], "del"@) || mentions(ls[i], "flush"@)) by {
            if i < n {
                assert(ls[i] == init[i]);
                assert(at.contains(i) == before.contains(i)) by {
                    if before.contains(i) {
                        let j = before.index_of(i);
                        assert(at[j] == i);
                    }
                    if at.contains(i) {
                        let j = at.index_of(i);
                        assert(before[j] == i);
                    }
                }
            } else {
                if undoes(last) {
                    assert(at[before.len() as int] == n);
                }
            }
        }
        let kept = ls.filter(pred);
        assert forall|j: int| 0 <= j < at.len() implies 0 <= #[trigger] at[j] < ls.len() by {
            if j < before.len() {
                assert(at[j] == before[j]);
            }
        }
        assert forall|j: int| 0 <= j < at.len() implies #[trigger] kept[j] == ls[at[j]] by {
            if j < before.len() {
                assert(at[j] == before[j]);
                assert(init.filter(pred)[j] == init[before[j]]);
            }
        }
        assert forall|j: int, k: int| 0 <= j < k < at.len() implies #[trigger] at[j]
            < #[trigger] at[k] by {
            assert(at[j] == before[j]);
            if k < before.len() {
                assert(at[k] == before[k]);
            }
        }
        at
    }
}

/// The undoing lines of a script are those of its lines in which `-D`, `del` or `flush` stands:
/// all of these, each once, in their order, and no others.
pub proof fn law_undoing_lines_delete_or_flush(script: Seq<char>)
    ensures
        exists|at: Seq<int>|
            {
                &&& #[trigger] stand_at(undoing_lines(script), lines(script), at)
                &&& forall|i: int|
                    0 <= i < lines(script).len() ==> (#[trigger] at.contains(i) <==> mentions(
                        lines(script)[i],
                        "-D"@,
                    ) || mentions(lines(script)[i], "del"@) || mentions(
                        lines(script)[i],
                        "flush"@,
                    ))
            },
        forall|j: int|
            0 <= j < undoing_lines(script).len() ==> mentions(
                #[trigger] undoing_lines(script)[j],
                "-D"@,
            ) || mentions(undoing_lines(script)[j], "del"@) || mentions(
                undoing_lines(script)[j],
                "flush"@,
            ),
{
    let ls = lines(script);
    let at = lemma_filter_chooses(ls);
    assert(stand_at(undoing_lines(script), ls, at));
    assert forall|j: int| 0 <= j < undoing_lines(script).len() implies mentions(
        #[trigger] undoing_lines(script)[j],
        "-D"@,
    ) || mentions(undoing_lines(script)[j], "del"@) || mentions(
        undoing_lines(script)[j],
        "flush"@,
    ) by {
        assert(at.contains(at[j]));
        assert(undoing_lines(script)[j] == ls[at[j]]);
    }
}

/// What a shell reads off the undoing script: only lines of the setup script, and only those in
/// which `-D`, `del` or `flush` stands. As before, this takes that no such line but the last ends
/// in a carriage return of its own.
pub proof fn law_undoing_script_only_undoes(script: Seq<char>)
    requires
        forall|i: int|
            0 <= i < undoing_lines(script).len() - 1 ==> (#[trigger] undoing_lines(
                script,
            )[i]).last() != '\r',
    ensures
        ({
            let run = lines(join_lines(undoing_lines(script)));
            &&& forall|j: int|
                0 <= j < run.len() ==> {
                    &&& lines(script).contains(#[trigger] run[j])
                    &&& mentions(run[j], "-D"@) || mentions(run[j], "del"@) || mentions(
                        run[j],
                        "flush"@,
                    )
                }
            &&& forall|i: int|
                0 <= i < lines(script).len() && (mentions(lines(script)[i], "-D"@) || mentions(
                    lines(script)[i],
                    "del"@,
                ) || mentions(lines(script)[i], "flush"@)) ==> run.contains(
                    #[trigger] lines(script)[i],
                )
        }),
{
    law_undoing_script_has_undoing_lines(script);
    law_undoing_lines_delete_or_flush(script);
    let ls = lines(script);
    let run = undoing_lines(script);
    let at = lemma_filter_chooses(ls);
    assert forall|j: int| 0 <= j < run.len() implies ls.contains(#[trigger] run[j]) by {
        assert(run[j] == ls[at[j]]);
    }
    assert forall|i: int|
        0 <= i < ls.len() && (mentions(ls[i], "-D"@) || mentions(ls[i], "del"@) || mentions(
            ls[i],
            "flush"@,
        )) implies run.contains(#[trigger] ls[i]) by {
        assert(at.contains(i));
        let j = at.index_of(i);
        assert(run[j] == ls[at[j]]);
    }
}

} // verus!
