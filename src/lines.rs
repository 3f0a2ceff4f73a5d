use vstd::prelude::*;
use vstd::std_specs::iter::IteratorSpec;

verus! {

/// The lines of `s`, each with its trailing newline; the last one may lack it.
/// Defined by adding the characters of `s` one at a time: a character starts a
/// new line when there is none yet or when the last line is already closed by a
/// newline, and otherwise extends the last line.
pub open spec fn split_lines(s: Seq<char>) -> Seq<Seq<char>>
    decreases s.len(),
{
    if s.len() == 0 {
        seq![]
    } else {
        let p = split_lines(s.drop_last());
        let c = s.last();
        if p.len() == 0 || p.last().last() == '\n' {
            p.push(seq![c])
        } else {
            p.update(p.len() - 1, p.last().push(c))
        }
    }
}

/// The lines written one after another.
pub open spec fn concat_lines(r: Seq<Seq<char>>) -> Seq<char>
    decreases r.len(),
{
    if r.len() == 0 {
        seq![]
    } else {
        concat_lines(r.drop_last()) + r.last()
    }
}

/// One line: not empty, and a newline at most as its last character.
pub open spec fn is_line(l: Seq<char>) -> bool {
    &&& l.len() > 0
    &&& forall|j: int| 0 <= j < l.len() - 1 ==> l[j] != '\n'
}

/// A sequence of lines as `split_lines` produces it: every line but the last is
/// closed by a newline.
pub open spec fn lines_wf(r: Seq<Seq<char>>) -> bool {
    &&& forall|i: int| 0 <= i < r.len() ==> is_line(#[trigger] r[i])
    &&& forall|i: int| 0 <= i < r.len() - 1 ==> (#[trigger] r[i]).last() == '\n'
}

/// The text of each string.
pub open spec fn lines_view(v: Seq<String>) -> Seq<Seq<char>> {
    v.map_values(|s: String| s@)
}

/// Splitting gives well-formed lines that concatenate back to the text.
pub proof fn lemma_split_lines_wf(s: Seq<char>)
    ensures
        lines_wf(split_lines(s)),
        concat_lines(split_lines(s)) == s,
    decreases s.len(),
{
    if s.len() > 0 {
        lemma_split_lines_wf(s.drop_last());
        let p = split_lines(s.drop_last());
        let r = split_lines(s);
        let c = s.last();
        if p.len() == 0 || p.last().last() == '\n' {
            assert(r.drop_last() =~= p);
        } else {
            let l = p.last().push(c);
            assert(is_line(l)) by {
                assert forall|j: int| 0 <= j < l.len() - 1 implies l[j] != '\n' by {
                    if j < p.last().len() - 1 {
                        assert(l[j] == p.last()[j]);
                    }
                }
            }
            assert(r.drop_last() =~= p.drop_last());
            assert(concat_lines(p) == concat_lines(p.drop_last()) + p.last());
            assert(concat_lines(r) =~= concat_lines(p) + seq![c]);
        }
        assert(s =~= s.drop_last() + seq![c]);
    }
}

/// Well-formed lines are what splitting their concatenation gives back.
pub proof fn lemma_split_concat(r: Seq<Seq<char>>)
    requires
        lines_wf(r),
    ensures
        split_lines(concat_lines(r)) == r,
    decreases concat_lines(r).len(),
{
    if r.len() > 0 {
        let l = r.last();
        assert(is_line(r[r.len() - 1]));
        let s = concat_lines(r);
        if l.len() == 1 {
            let q = r.drop_last();
            assert(lines_wf(q)) by {
                assert forall|i: int| 0 <= i < q.len() implies is_line(#[trigger] q[i]) by {
                    assert(is_line(r[i]));
                }
                assert forall|i: int| 0 <= i < q.len() - 1 implies (#[trigger] q[i]).last()
                    == '\n' by {
                    assert(r[i].last() == '\n');
                }
            }
            lemma_split_concat(q);
            assert(s.drop_last() =~= concat_lines(q));
            if q.len() > 0 {
                assert(r[q.len() - 1].last() == '\n');
            }
            assert(s == concat_lines(q) + l);
            assert(l =~= seq![s.last()]);
            assert(r =~= q.push(seq![s.last()]));
        } else {
            let q = r.update(r.len() - 1, l.drop_last());
            assert(lines_wf(q)) by {
                assert forall|i: int| 0 <= i < q.len() implies is_line(#[trigger] q[i]) by {
                    assert(is_line(r[i]));
                }
                assert forall|i: int| 0 <= i < q.len() - 1 implies (#[trigger] q[i]).last()
                    == '\n' by {
                    assert(r[i].last() == '\n');
                }
            }
            assert(q.drop_last() =~= r.drop_last());
            assert(concat_lines(q) =~= concat_lines(r.drop_last()) + l.drop_last());
            assert(s =~= concat_lines(q).push(l.last()));
            lemma_split_concat(q);
            assert(s.drop_last() =~= concat_lines(q));
            assert(q.last().last() != '\n');
            assert(l =~= q.last().push(l.last()));
            assert(r =~= q.update(q.len() - 1, q.last().push(s.last())));
        }
    }
}

/// Relies on `String::push`: the character is added at the end.
#[verifier::external_body]
fn push_char(s: &mut String, c: char)
    ensures
        final(s)@ == old(s)@.push(c),
{
    s.push(c)
}

/// Splits `content` into lines, each keeping its newline; the last line lacks
/// one when the content does not end in a newline. Empty content has no lines.
pub fn split_lines_preserve_newline(content: &str) -> (r: Vec<String>)
    ensures
        lines_view(r@) == split_lines(content@),
{
    let ghost s = content@;
    let mut done: Vec<String> = Vec::new();
    let mut cur = String::new();
    let mut it = content.chars();
    let ghost mut i: int = 0;
    loop
        invariant
            0 <= i <= s.len(),
            it.remaining() == s.skip(i),
            cur@.len() == 0 ==> split_lines(s.take(i)) == lines_view(done@),
            cur@.len() > 0 ==> split_lines(s.take(i)) == lines_view(done@).push(cur@),
            cur@.len() > 0 ==> cur@.last() != '\n',
            done@.len() > 0 ==> lines_view(done@).last().len() > 0,
            done@.len() > 0 ==> lines_view(done@).last().last() == '\n',
        ensures
            i == s.len(),
            cur@.len() == 0 ==> split_lines(s) == lines_view(done@),
            cur@.len() > 0 ==> split_lines(s) == lines_view(done@).push(cur@),
        decreases s.len() - i,
    {
        let ghost before = it.remaining();
        match it.next() {
            Some(c) => {
                proof {
                    assert(before.len() > 0);
                    assert(c == s[i]);
                    assert(s.take(i + 1).drop_last() =~= s.take(i));
                    assert(s.take(i + 1).last() == c);
                }
                let ghost old_cur = cur@;
                push_char(&mut cur, c);
                proof {
                    let p = split_lines(s.take(i));
                    if old_cur.len() == 0 {
                        assert(p == lines_view(done@));
                        assert(cur@ =~= seq![c]);
                    } else {
                        assert(p.last() == old_cur);
                        assert(p.update(p.len() - 1, old_cur.push(c)) =~= lines_view(done@).push(
                            cur@,
                        ));
                    }
                    assert(split_lines(s.take(i + 1)) =~= lines_view(done@).push(cur@));
                    i = i + 1;
                    assert(it.remaining() =~= s.skip(i));
                }
                if c == '\n' {
                    let line = cur;
                    cur = String::new();
                    done.push(line);
                    proof {
                        assert(lines_view(done@) =~= lines_view(done@.drop_last()).push(line@));
                    }
                }
            },
            None => {
                proof {
                    assert(before.len() == 0);
                    assert(s.take(i) =~= s);
                }
                break ;
            },
        }
    }
    if !cur.as_str().is_empty() {
        let ghost d = done@;
        done.push(cur);
        proof {
            assert(lines_view(done@) =~= lines_view(d).push(lines_view(done@).last()));
        }
    }
    done
}

/// The lines with the last one closed by a newline, if it lacks one.
pub open spec fn close_last(r: Seq<Seq<char>>) -> Seq<Seq<char>> {
    if r.len() > 0 && r.last().last() != '\n' {
        r.update(r.len() - 1, r.last().push('\n'))
    } else {
        r
    }
}

/// The text closed by a newline, if it is not empty and lacks one.
pub open spec fn close_text(s: Seq<char>) -> Seq<char> {
    if s.len() > 0 && s.last() != '\n' {
        s.push('\n')
    } else {
        s
    }
}

/// The lines of `content` with `line` added as line number `line_num`
/// (counted from 1): before the line that stood there, or, one past the last
/// line, as a new last line after the old last line is closed by a newline.
pub open spec fn lines_with_insert(content: Seq<char>, line_num: int, line: Seq<char>) -> Seq<
    Seq<char>,
> {
    let r = split_lines(content);
    if line_num == r.len() + 1 {
        close_last(r).push(line)
    } else {
        r.insert(line_num - 1, line)
    }
}

/// The text with `line` inserted as line number `line_num`.
pub open spec fn insert_at_line(content: Seq<char>, line_num: int, line: Seq<char>) -> Seq<char> {
    concat_lines(lines_with_insert(content, line_num, line))
}

/// The last character of concatenated lines is that of the last line.
proof fn lemma_concat_last(r: Seq<Seq<char>>)
    requires
        r.len() > 0,
        r.last().len() > 0,
    ensures
        concat_lines(r).len() > 0,
        concat_lines(r).last() == r.last().last(),
{
    let a = concat_lines(r.drop_last());
    assert(concat_lines(r) == a + r.last());
    assert((a + r.last())[a.len() + r.last().len() - 1] == r.last()[r.last().len() - 1]);
}

/// Closing the last line of a text's lines closes the text.
proof fn lemma_close_last(content: Seq<char>)
    ensures
        concat_lines(close_last(split_lines(content))) == close_text(content),
        lines_wf(close_last(split_lines(content))),
        forall|i: int|
            0 <= i < close_last(split_lines(content)).len() ==> (#[trigger] close_last(
                split_lines(content),
            )[i]).last() == '\n',
{
    let r = split_lines(content);
    lemma_split_lines_wf(content);
    if r.len() > 0 {
        assert(is_line(r[r.len() - 1]));
        lemma_concat_last(r);
        if r.last().last() != '\n' {
            let l = r.last().push('\n');
            let c = close_last(r);
            assert(c.drop_last() =~= r.drop_last());
            assert(concat_lines(r) == concat_lines(r.drop_last()) + r.last());
            assert(concat_lines(c) =~= content.push('\n'));
            assert(is_line(l)) by {
                assert forall|j: int| 0 <= j < l.len() - 1 implies l[j] != '\n' by {
                    assert(l[j] == r.last()[j]);
                    if j < r.last().len() - 1 {
                        assert(is_line(r[r.len() - 1]));
                    }
                }
            }
            assert forall|i: int| 0 <= i < c.len() implies is_line(#[trigger] c[i]) by {
                if i < c.len() - 1 {
                    assert(is_line(r[i]));
                }
            }
            assert forall|i: int| 0 <= i < c.len() implies (#[trigger] c[i]).last() == '\n' by {
                if i < c.len() - 1 {
                    assert(r[i].last() == '\n');
                }
            }
        } else {
            assert forall|i: int| 0 <= i < r.len() implies (#[trigger] r[i]).last() == '\n' by {
                if i < r.len() - 1 {
                    assert(r[i].last() == '\n');
                }
            }
        }
    }
}

/// Inserting a newline-terminated line at any position from the first line to
/// one past the last adds exactly one line, the inserted one at that position;
/// the other lines keep their order, and only a last line that lacked a newline
/// gains one, when the new line goes after it.
pub proof fn lemma_insert_adds_one_line(content: Seq<char>, line_num: int, line: Seq<char>)
    requires
        is_line(line),
        line.last() == '\n',
        1 <= line_num <= split_lines(content).len() + 1,
    ensures
        split_lines(insert_at_line(content, line_num, line)) == lines_with_insert(
            content,
            line_num,
            line,
        ),
        split_lines(insert_at_line(content, line_num, line)).len() == split_lines(content).len()
            + 1,
        split_lines(insert_at_line(content, line_num, line))[line_num - 1] == line,
{
    let r = split_lines(content);
    let k = line_num - 1;
    let q = lines_with_insert(content, line_num, line);
    lemma_split_lines_wf(content);
    if k == r.len() {
        lemma_close_last(content);
        let c = close_last(r);
        assert forall|i: int| 0 <= i < q.len() implies is_line(#[trigger] q[i]) by {
            if i < c.len() {
                assert(is_line(c[i]));
            }
        }
        assert forall|i: int| 0 <= i < q.len() - 1 implies (#[trigger] q[i]).last() == '\n' by {
            assert(c[i].last() == '\n');
        }
    } else {
        assert forall|i: int| 0 <= i < q.len() implies is_line(#[trigger] q[i]) by {
            if i < k {
                assert(is_line(r[i]));
            } else if i > k {
                assert(is_line(r[i - 1]));
            }
        }
        assert forall|i: int| 0 <= i < q.len() - 1 implies (#[trigger] q[i]).last() == '\n' by {
            if i < k {
                assert(r[i].last() == '\n');
            } else if i > k {
                assert(r[i - 1].last() == '\n');
            }
        }
    }
    lemma_split_concat(q);
}

/// Inserting one past the last line keeps the old text as the start, closed by
/// a newline if it lacked one, and appends the line after it.
pub proof fn lemma_insert_after_last_appends(content: Seq<char>, line: Seq<char>)
    ensures
        insert_at_line(content, split_lines(content).len() + 1int, line) == close_text(content)
            + line,
{
    let r = split_lines(content);
    lemma_close_last(content);
    let c = close_last(r);
    assert(c.push(line).drop_last() =~= c);
}

/// Closes the last line with a newline if it lacks one.
pub fn close_last_line(lines: &mut Vec<String>)
    requires
        lines_wf(lines_view(old(lines)@)),
    ensures
        lines_view(final(lines)@) == close_last(lines_view(old(lines)@)),
{
    let ghost r = lines_view(lines@);
    match lines.pop() {
        Some(mut last) => {
            proof {
                assert(lines_view(old(lines)@)[old(lines)@.len() - 1] == last@);
                assert(is_line(r[r.len() - 1]));
            }
            let n = last.as_str().unicode_len();
            if last.as_str().get_char(n - 1) != '\n' {
                push_char(&mut last, '\n');
            }
            lines.push(last);
            proof {
                assert(lines_view(lines@) =~= close_last(r));
            }
        },
        None => {},
    }
}

/// Writes the lines one after another.
pub fn join_lines(lines: &Vec<String>) -> (r: String)
    ensures
        r@ == concat_lines(lines_view(lines@)),
{
    let mut out = String::new();
    let mut i: usize = 0;
    while i < lines.len()
        invariant
            i <= lines@.len(),
            out@ == concat_lines(lines_view(lines@).take(i as int)),
        decreases lines@.len() - i,
    {
        out.append(lines[i].as_str());
        proof {
            assert(lines_view(lines@).take(i + 1).drop_last() =~= lines_view(lines@).take(
                i as int,
            ));
        }
        i = i + 1;
    }
    proof {
        assert(lines_view(lines@).take(i as int) =~= lines_view(lines@));
    }
    out
}

/// Inserts `text` so that it becomes line number `line_num` (counted from 1);
/// `line_num` one past the last line appends it.
pub fn insert_line(lines: &mut Vec<String>, line_num: usize, text: String)
    requires
        1 <= line_num <= old(lines)@.len() + 1,
    ensures
        final(lines)@ == old(lines)@.insert(line_num - 1, text),
        lines_view(final(lines)@) == lines_view(old(lines)@).insert(line_num - 1, text@),
{
    let ghost t = text@;
    lines.insert(line_num - 1, text);
    proof {
        assert(lines_view(lines@) =~= lines_view(old(lines)@).insert(line_num - 1, t));
    }
}

} // verus!
