use vstd::prelude::*;

verus! {

/// What `std::path::Path::extension` gives for a path: the part of the file
/// name after its last dot, if there is one.
pub uninterp spec fn extension_of(path: Seq<char>) -> Option<Seq<char>>;

/// What `str::to_lowercase` gives for a text.
pub uninterp spec fn lower_of(s: Seq<char>) -> Seq<char>;

/// The text of an optional string.
pub open spec fn opt_text(o: Option<String>) -> Option<Seq<char>> {
    match o {
        Some(s) => Some(s@),
        None => None,
    }
}

/// Relies on `std::path::Path::extension` (and `OsStr::to_str`, which cannot
/// fail on a path made from a `str`): the extension of the file name, which
/// depends on the path's text alone for the platform the library is built for.
#[verifier::external_body]
fn file_extension(path: &str) -> (r: Option<String>)
    ensures
        opt_text(r) == extension_of(path@),
{
    std::path::Path::new(path).extension().and_then(|e| e.to_str()).map(|e| e.to_string())
}

/// Relies on `str::to_lowercase`: the lowercase form of the text, which depends
/// on the characters alone; an empty text stays empty.
#[verifier::external_body]
fn lowercase(s: &str) -> (r: String)
    ensures
        r@ == lower_of(s@),
        s@.len() == 0 ==> r@.len() == 0,
{
    s.to_lowercase()
}

/// The extension that selects the comment syntax: a dot and the lowercase
/// extension of the path, or empty text when the path has none.
pub open spec fn dotted_extension(path: Seq<char>) -> Seq<char> {
    match extension_of(path) {
        Some(e) => seq!['.'] + lower_of(e),
        None => seq![],
    }
}

/// The extensions written with `//` line comments by name.
pub open spec fn is_slash_extension(ext: Seq<char>) -> bool {
    ||| ext == ".js"@
    ||| ext == ".ts"@
    ||| ext == ".go"@
    ||| ext == ".c"@
    ||| ext == ".cpp"@
    ||| ext == ".java"@
    ||| ext == ".rs"@
    ||| ext == ".zig"@
}

/// The comment prefix and suffix for a dotted lowercase extension; anything
/// not listed falls back to `//`.
pub open spec fn comment_syntax(ext: Seq<char>) -> (Seq<char>, Seq<char>) {
    if ext == ".py"@ {
        ("#"@, ""@)
    } else if is_slash_extension(ext) {
        ("//"@, ""@)
    } else if ext == ".sql"@ {
        ("--"@, ""@)
    } else if ext == ".html"@ || ext == ".htm"@ {
        ("<!--"@, " -->"@)
    } else {
        ("//"@, ""@)
    }
}

/// The marker line: `<prefix> CLAUDE_ANCHOR[key=<key>] <desc><suffix>` and a
/// newline.
pub open spec fn comment_text(ext: Seq<char>, key: Seq<char>, desc: Seq<char>) -> Seq<char> {
    comment_syntax(ext).0 + " CLAUDE_ANCHOR[key="@ + key + "] "@ + desc + comment_syntax(ext).1
        + "\n"@
}

/// Whether two texts are the same.
pub fn same_text(a: &str, b: &str) -> (r: bool)
    ensures
        r == (a@ == b@),
{
    let n = a.unicode_len();
    if n != b.unicode_len() {
        return false;
    }
    let mut i: usize = 0;
    while i < n
        invariant
            n == a@.len(),
            n == b@.len(),
            i <= n,
            forall|j: int| 0 <= j < i ==> a@[j] == b@[j],
        decreases n - i,
    {
        if a.get_char(i) != b.get_char(i) {
            return false;
        }
        i = i + 1;
    }
    proof {
        assert(a@ =~= b@);
    }
    true
}

/// The comment prefix and suffix for a dotted lowercase extension.
pub fn comment_tokens(ext: &str) -> (r: (&'static str, &'static str))
    ensures
        r.0@ == comment_syntax(ext@).0,
        r.1@ == comment_syntax(ext@).1,
{
    proof {
        reveal_strlit("#");
        reveal_strlit("");
        reveal_strlit("//");
        reveal_strlit("--");
        reveal_strlit("<!--");
        reveal_strlit(" -->");
    }
    if same_text(ext, ".py") {
        ("#", "")
    } else if same_text(ext, ".js") || same_text(ext, ".ts") || same_text(ext, ".go")
        || same_text(ext, ".c") || same_text(ext, ".cpp") || same_text(ext, ".java")
        || same_text(ext, ".rs") || same_text(ext, ".zig") {
        ("//", "")
    } else if same_text(ext, ".sql") {
        ("--", "")
    } else if same_text(ext, ".html") || same_text(ext, ".htm") {
        ("<!--", " -->")
    } else {
        ("//", "")
    }
}

/// The marker line for a dotted lowercase extension, a key and a description.
pub fn comment_for_extension(ext: &str, key: &str, desc: &str) -> (r: String)
    ensures
        r@ == comment_text(ext@, key@, desc@),
{
    let (prefix, suffix) = comment_tokens(ext);
    let mut out = String::from_str(prefix);
    out.append(" CLAUDE_ANCHOR[key=");
    out.append(key);
    out.append("] ");
    out.append(desc);
    out.append(suffix);
    out.append("\n");
    out
}

/// The marker line for a file: the comment syntax follows the file's
/// extension, compared without regard to case.
pub fn build_comment(path: &str, key: &str, desc: &str) -> (r: String)
    ensures
        r@ == comment_text(dotted_extension(path@), key@, desc@),
{
    let ext = match file_extension(path) {
        Some(e) => {
            let lower = lowercase(e.as_str());
            let mut dotted = String::from_str(".");
            dotted.append(lower.as_str());
            proof {
                reveal_strlit(".");
                assert(dotted@ =~= seq!['.'] + lower_of(e@));
            }
            dotted
        },
        None => String::new(),
    };
    comment_for_extension(ext.as_str(), key, desc)
}

} // verus!
