use vstd::prelude::*;
use crate::comment::{build_comment, comment_syntax, comment_text, dotted_extension};
use crate::key::{generate_key, is_lower_hex, KEY_LEN};
use crate::lines::{
    close_last, close_last_line, insert_at_line, insert_line, is_line, join_lines,
    lemma_insert_adds_one_line, lemma_split_lines_wf, lines_view, lines_with_insert, split_lines,
    split_lines_preserve_newline,
};

verus! {

/// Why an anchor was not dropped.
#[derive(Debug, PartialEq, Eq, Structural)]
pub enum DropError {
    /// The target file does not exist.
    FileNotFound,
    /// The line is 0 or more than one past the file's last line.
    InvalidLine { line: usize, total: usize },
}

/// A marker ready to be written: its key, its line, and the file's new text.
#[derive(Clone, Debug)]
pub struct AnchorDrop {
    pub key: String,
    pub comment: String,
    pub content: String,
}

/// A line number (counted from 1) at which a file of `total` lines takes a new
/// line: any existing line, or one past the last.
pub open spec fn line_in_range(line_num: int, total: int) -> bool {
    1 <= line_num <= total + 1
}

/// The text with `comment` inserted as line `line_num`, or the reason it
/// cannot be: the line is out of range for the text's lines.
pub fn insert_comment(content: &str, line_num: usize, comment: String) -> (r: Result<
    String,
    DropError,
>)
    ensures
        line_in_range(line_num as int, split_lines(content@).len() as int) ==> r is Ok
            && r->Ok_0@ == insert_at_line(content@, line_num as int, comment@),
        !line_in_range(line_num as int, split_lines(content@).len() as int) ==> r == Err::<
            String,
            DropError,
        >((DropError::InvalidLine { line: line_num, total: split_lines(content@).len() as usize })),
{
    let mut lines = split_lines_preserve_newline(content);
    let total = lines.len();
    proof {
        assert(lines_view(lines@).len() == lines@.len());
    }
    if line_num == 0 || line_num - 1 > total {
        return Err(DropError::InvalidLine { line: line_num, total });
    }
    if line_num - 1 == total {
        proof {
            lemma_split_lines_wf(content@);
        }
        close_last_line(&mut lines);
        proof {
            assert(lines_view(lines@).len() == lines@.len());
        }
    }
    let ghost before = lines_view(lines@);
    insert_line(&mut lines, line_num, comment);
    proof {
        let r = split_lines(content@);
        if line_num - 1 == total {
            assert(before.insert(line_num - 1, comment@) =~= close_last(r).push(comment@));
        }
        assert(lines_view(lines@) == lines_with_insert(content@, line_num as int, comment@));
    }
    Ok(join_lines(&lines))
}

/// Prepares an anchor for the file whose text is `content` (`None` when the
/// file does not exist): a fresh key, the marker line in the file's comment
/// syntax, and the text with the marker inserted as line `line_num`.
pub fn prepare_drop(content: Option<String>, path: &str, line_num: usize, description: &str) -> (r:
    Result<AnchorDrop, DropError>)
    ensures
        content is None ==> r == Err::<AnchorDrop, DropError>(DropError::FileNotFound),
        content is Some ==> {
            let text = content->0@;
            let total = split_lines(text).len() as int;
            &&& line_in_range(line_num as int, total) <==> r is Ok
            &&& !line_in_range(line_num as int, total) ==> r == Err::<AnchorDrop, DropError>(
                (DropError::InvalidLine { line: line_num, total: total as usize }),
            )
            &&& r is Ok ==> {
                let d = r->Ok_0;
                &&& d.key@.len() == KEY_LEN
                &&& forall|i: int| 0 <= i < d.key@.len() ==> is_lower_hex(#[trigger] d.key@[i])
                &&& d.comment@ == comment_text(dotted_extension(path@), d.key@, description@)
                &&& d.content@ == insert_at_line(text, line_num as int, d.comment@)
            }
        },
{
    let text = match content {
        Some(t) => t,
        None => return Err(DropError::FileNotFound),
    };
    let key = generate_key();
    let comment = build_comment(path, key.as_str(), description);
    match insert_comment(text.as_str(), line_num, comment.clone()) {
        Ok(new_text) => Ok(AnchorDrop { key, comment, content: new_text }),
        Err(e) => Err(e),
    }
}

/// Whether a text holds no newline.
pub open spec fn single_line(s: Seq<char>) -> bool {
    forall|i: int| 0 <= i < s.len() ==> s[i] != '\n'
}

/// The marker line is one line, closed by a newline, when the key and the
/// description hold no newline.
pub proof fn lemma_comment_is_line(ext: Seq<char>, key: Seq<char>, desc: Seq<char>)
    requires
        single_line(key),
        single_line(desc),
    ensures
        is_line(comment_text(ext, key, desc)),
        comment_text(ext, key, desc).last() == '\n',
{
    reveal_strlit("#");
    reveal_strlit("");
    reveal_strlit("//");
    reveal_strlit("--");
    reveal_strlit("<!--");
    reveal_strlit(" -->");
    reveal_strlit(" CLAUDE_ANCHOR[key=");
    reveal_strlit("] ");
    reveal_strlit("\n");
    let pre = comment_syntax(ext).0;
    let suf = comment_syntax(ext).1;
    let body = pre + " CLAUDE_ANCHOR[key="@ + key + "] "@ + desc + suf;
    assert(single_line(pre));
    assert(single_line(suf));
    assert(single_line(" CLAUDE_ANCHOR[key="@));
    assert(single_line("] "@));
    assert(single_line(body)) by {
        let a = pre + " CLAUDE_ANCHOR[key="@;
        assert(single_line(a));
        let b = a + key;
        assert(single_line(b));
        let c = b + "] "@;
        assert(single_line(c));
        let d = c + desc;
        assert(single_line(d));
    }
    let t = comment_text(ext, key, desc);
    assert(t =~= body.push('\n'));
}

/// Dropping an anchor at a valid line adds exactly one line to the file, and
/// that line is the marker; the lines before it stay, and those after it move
/// down by one. This holds where the key and the description are one line each.
pub proof fn lemma_drop_adds_one_line(
    content: Seq<char>,
    line_num: int,
    ext: Seq<char>,
    key: Seq<char>,
    desc: Seq<char>,
)
    requires
        line_in_range(line_num, split_lines(content).len() as int),
        single_line(key),
        single_line(desc),
    ensures
        split_lines(insert_at_line(content, line_num, comment_text(ext, key, desc)))
            == lines_with_insert(content, line_num, comment_text(ext, key, desc)),
        split_lines(insert_at_line(content, line_num, comment_text(ext, key, desc))).len()
            == split_lines(content).len() + 1,
        split_lines(insert_at_line(content, line_num, comment_text(ext, key, desc)))[line_num
            - 1] == comment_text(ext, key, desc),
        forall|i: int|
            0 <= i < line_num - 1 && i < split_lines(content).len() - 1 ==> #[trigger] split_lines(
                insert_at_line(content, line_num, comment_text(ext, key, desc)),
            )[i] == split_lines(content)[i],
        forall|i: int|
            line_num - 1 < i <= split_lines(content).len() ==> #[trigger] split_lines(
                insert_at_line(content, line_num, comment_text(ext, key, desc)),
            )[i] == split_lines(content)[i - 1],
{
    lemma_comment_is_line(ext, key, desc);
    lemma_insert_adds_one_line(content, line_num, comment_text(ext, key, desc));
}

/// Dropping two anchors at the same line is not deduplicated: the file gains
/// two lines, the second marker at that line and the first just below it.
pub proof fn lemma_repeated_drop_adds_two_lines(
    content: Seq<char>,
    line_num: int,
    ext: Seq<char>,
    key1: Seq<char>,
    key2: Seq<char>,
    desc: Seq<char>,
)
    requires
        line_in_range(line_num, split_lines(content).len() as int),
        single_line(key1),
        single_line(key2),
        single_line(desc),
    ensures
        ({
            let once = insert_at_line(content, line_num, comment_text(ext, key1, desc));
            let twice = insert_at_line(once, line_num, comment_text(ext, key2, desc));
            &&& split_lines(twice).len() == split_lines(content).len() + 2
            &&& split_lines(twice)[line_num - 1] == comment_text(ext, key2, desc)
            &&& split_lines(twice)[line_num] == comment_text(ext, key1, desc)
        }),
{
    let c1 = comment_text(ext, key1, desc);
    let once = insert_at_line(content, line_num, c1);
    lemma_drop_adds_one_line(content, line_num, ext, key1, desc);
    lemma_comment_is_line(ext, key1, desc);
    assert(line_num <= split_lines(once).len());
    lemma_drop_adds_one_line(once, line_num, ext, key2, desc);
}

} // verus!
