//! Which files of a project are indexed, and as what.
use vstd::prelude::*;
use vstd::string::StrSliceExecFns;

#[allow(unused_imports)]
use crate::text::blank;
use crate::text::{is_blank, same_text};
use crate::types::ContentType;

verus! {

/// Files with more bytes than this are not indexed.
pub const MAX_FILE_BYTES: u64 = 1_000_000;

/// A file chosen for indexing.
#[derive(Debug)]
pub struct WalkedFile {
    pub relative_path: String,
    pub content: String,
    pub language: Option<String>,
    pub content_type: ContentType,
}

/// A regular file below the project root.
#[derive(Debug)]
pub struct FileEntry {
    /// The path that tells the file's type.
    pub path: String,
    /// The path below the project root.
    pub relative_path: String,
    /// The number of bytes, if it could be told.
    pub size: Option<u64>,
    /// The text, if the file was read and is UTF-8.
    pub content: Option<String>,
}

/// A regular file below the project root, with the names of the directories on the way to it, that
/// of the root first.
#[derive(Debug)]
pub struct MetEntry {
    pub directories: Vec<String>,
    pub entry: FileEntry,
}

/// What stands at the path of a project root.
#[derive(Debug, Clone, Copy, PartialEq, Eq, Structural)]
pub enum RootStatus {
    Missing,
    NotADirectory,
    Directory,
}

/// A project root with the regular files below it.
#[derive(Debug)]
pub struct Project {
    pub root: String,
    pub status: RootStatus,
    pub entries: Vec<MetEntry>,
}

/// The position of the last `c` in `s`, or -1.
pub open spec fn last_index_of(s: Seq<char>, c: char) -> int
    decreases s.len(),
{
    if s.len() == 0 {
        -1
    } else if s.last() == c {
        s.len() - 1
    } else {
        last_index_of(s.drop_last(), c)
    }
}

/// The last component of a path whose components are separated by `/`. Empty components and
/// `.` do not count; a path that ends in `..` has no file name.
pub open spec fn file_name(path: Seq<char>) -> Option<Seq<char>>
    decreases path.len(),
{
    let cut = last_index_of(path, '/');
    let last = path.skip(cut + 1);
    if last.len() > 0 && last != "."@ {
        if last == ".."@ {
            None
        } else {
            Some(last)
        }
    } else if 0 <= cut < path.len() {
        file_name(path.take(cut))
    } else {
        None
    }
}

/// What follows the last dot of the file name. A name without a dot, or with its only dot in
/// front, has no extension.
pub open spec fn file_extension(path: Seq<char>) -> Option<Seq<char>> {
    match file_name(path) {
        None => None,
        Some(name) => if last_index_of(name, '.') <= 0 {
            None
        } else {
            Some(name.skip(last_index_of(name, '.') + 1))
        },
    }
}

proof fn lemma_last_index_of(s: Seq<char>, c: char)
    ensures
        -1 <= last_index_of(s, c) < s.len(),
    decreases s.len(),
{
    if s.len() > 0 && s.last() != c {
        lemma_last_index_of(s.drop_last(), c);
    }
}

/// The position just behind the last `c` in `chars[from..to]`, or `from`.
fn after_last(chars: &Vec<char>, from: usize, to: usize, c: char) -> (r: usize)
    requires
        from <= to <= chars@.len(),
    ensures
        r == from + last_index_of(chars@.subrange(from as int, to as int), c) + 1,
        from <= r <= to,
{
    let mut i: usize = to;
    proof {
        lemma_last_index_of(chars@.subrange(from as int, to as int), c);
    }
    while i > from
        invariant
            from <= i <= to <= chars@.len(),
            last_index_of(chars@.subrange(from as int, to as int), c) == last_index_of(
                chars@.subrange(from as int, i as int),
                c,
            ),
        decreases i,
    {
        let ghost s = chars@.subrange(from as int, i as int);
        if chars[i - 1] == c {
            assert(s.last() == c);
            return i;
        }
        assert(s.drop_last() =~= chars@.subrange(from as int, i - 1));
        i = i - 1;
    }
    from
}

/// The characters of a string.
fn chars_of(text: &str) -> (r: Vec<char>)
    ensures
        r@ == text@,
{
    let mut out: Vec<char> = Vec::new();
    for c in it: text.chars()
        invariant
            it.seq() == text@,
            out@ == text@.take(it.index()),
    {
        out.push(c);
        assert(out@ =~= text@.take(it.index() + 1));
    }
    assert(out@ =~= text@);
    out
}

/// The extension of the last component of a `/`-separated path.
pub fn extension(path: &str) -> (r: Option<String>)
    ensures
        r.deep_view() == file_extension(path@),
{
    let chars = chars_of(path);
    let mut end: usize = chars.len();
    assert(chars@.take(end as int) =~= path@);
    loop
        invariant
            chars@ == path@,
            end <= chars@.len(),
            file_name(path@) == file_name(chars@.take(end as int)),
        decreases end,
    {
        let start = after_last(&chars, 0, end, '/');
        let ghost rest = chars@.take(end as int);
        let ghost last = rest.skip(start as int);
        proof {
            reveal_strlit(".");
            reveal_strlit("..");
            assert(chars@.subrange(0, end as int) =~= rest);
            assert(last.len() == end - start);
        }
        let dot = end - start == 1 && chars[start] == '.';
        assert(dot == (last == "."@)) by {
            assert(dot ==> last =~= "."@);
            if last == "."@ {
                assert("."@[0] == '.');
                assert(last[0] == chars@[start as int]);
            }
        }
        if start == end || dot {
            if start == 0 {
                return None;
            }
            assert(rest.take(start - 1) =~= chars@.take(start - 1));
            end = start - 1;
        } else {
            let parent = end - start == 2 && chars[start] == '.' && chars[start + 1] == '.';
            assert(parent == (last == ".."@)) by {
                assert(parent ==> last =~= ".."@);
                if last == ".."@ {
                    assert(".."@[0] == '.' && ".."@[1] == '.');
                    assert(last[0] == chars@[start as int] && last[1] == chars@[start + 1]);
                }
            }
            if parent {
                return None;
            }
            let after = after_last(&chars, start, end, '.');
            assert(chars@.subrange(start as int, end as int) =~= last);
            if after <= start + 1 {
                return None;
            }
            let ext = path.substring_char(after, end);
            assert(ext@ =~= last.skip(after - start));
            return Some(ext.to_owned());
        }
    }
}

/// The language of a file extension.
pub open spec fn language_of(ext: Seq<char>) -> Option<Seq<char>> {
    if ext == "py"@ {
        Some("python"@)
    } else if ext == "rs"@ {
        Some("rust"@)
    } else if ext == "js"@ || ext == "jsx"@ || ext == "mjs"@ || ext == "cjs"@ {
        Some("javascript"@)
    } else if ext == "ts"@ || ext == "mts"@ || ext == "cts"@ {
        Some("typescript"@)
    } else if ext == "tsx"@ {
        Some("tsx"@)
    } else if ext == "go"@ {
        Some("go"@)
    } else if ext == "java"@ {
        Some("java"@)
    } else if ext == "rb"@ {
        Some("ruby"@)
    } else if ext == "php"@ {
        Some("php"@)
    } else if ext == "c"@ || ext == "h"@ {
        Some("c"@)
    } else if ext == "cpp"@ || ext == "cc"@ || ext == "cxx"@ || ext == "hpp"@ || ext == "hxx"@ {
        Some("cpp"@)
    } else if ext == "cs"@ {
        Some("csharp"@)
    } else if ext == "swift"@ {
        Some("swift"@)
    } else if ext == "kt"@ || ext == "kts"@ {
        Some("kotlin"@)
    } else if ext == "scala"@ {
        Some("scala"@)
    } else if ext == "dart"@ {
        Some("dart"@)
    } else if ext == "lua"@ {
        Some("lua"@)
    } else if ext == "sh"@ || ext == "bash"@ || ext == "zsh"@ {
        Some("bash"@)
    } else if ext == "r"@ || ext == "R"@ {
        Some("r"@)
    } else if ext == "sql"@ {
        Some("sql"@)
    } else if ext == "ex"@ || ext == "exs"@ {
        Some("elixir"@)
    } else if ext == "erl"@ || ext == "hrl"@ {
        Some("erlang"@)
    } else if ext == "hs"@ {
        Some("haskell"@)
    } else if ext == "ml"@ || ext == "mli"@ {
        Some("ocaml"@)
    } else {
        None
    }
}

fn language_name(e: &str) -> (r: Option<&'static str>)
    ensures
        r.deep_view() == language_of(e@),
{
    if same_text(e, "py") {
        Some("python")
    } else if same_text(e, "rs") {
        Some("rust")
    } else if same_text(e, "js") || same_text(e, "jsx") || same_text(e, "mjs") || same_text(
        e,
        "cjs",
    ) {
        Some("javascript")
    } else if same_text(e, "ts") || same_text(e, "mts") || same_text(e, "cts") {
        Some("typescript")
    } else if same_text(e, "tsx") {
        Some("tsx")
    } else if same_text(e, "go") {
        Some("go")
    } else if same_text(e, "java") {
        Some("java")
    } else if same_text(e, "rb") {
        Some("ruby")
    } else if same_text(e, "php") {
        Some("php")
    } else if same_text(e, "c") || same_text(e, "h") {
        Some("c")
    } else if same_text(e, "cpp") || same_text(e, "cc") || same_text(e, "cxx") || same_text(
        e,
        "hpp",
    ) || same_text(e, "hxx") {
        Some("cpp")
    } else if same_text(e, "cs") {
        Some("csharp")
    } else if same_text(e, "swift") {
        Some("swift")
    } else if same_text(e, "kt") || same_text(e, "kts") {
        Some("kotlin")
    } else if same_text(e, "scala") {
        Some("scala")
    } else if same_text(e, "dart") {
        Some("dart")
    } else if same_text(e, "lua") {
        Some("lua")
    } else if same_text(e, "sh") || same_text(e, "bash") || same_text(e, "zsh") {
        Some("bash")
    } else if same_text(e, "r") || same_text(e, "R") {
        Some("r")
    } else if same_text(e, "sql") {
        Some("sql")
    } else if same_text(e, "ex") || same_text(e, "exs") {
        Some("elixir")
    } else if same_text(e, "erl") || same_text(e, "hrl") {
        Some("erlang")
    } else if same_text(e, "hs") {
        Some("haskell")
    } else if same_text(e, "ml") || same_text(e, "mli") {
        Some("ocaml")
    } else {
        None
    }
}

/// The language of the file at `path`, by its extension.
pub open spec fn path_language(path: Seq<char>) -> Option<Seq<char>> {
    match file_extension(path) {
        Some(ext) => language_of(ext),
        None => None,
    }
}

/// Detects the programming language from the file extension.
pub fn detect_language(path: &str) -> (r: Option<String>)
    ensures
        r.deep_view() == path_language(path@),
{
    match extension(path) {
        Some(ext) => match language_name(ext.as_str()) {
            Some(name) => Some(name.to_owned()),
            None => None,
        },
        None => None,
    }
}

/// The content type of a file extension.
pub open spec fn content_type_of(ext: Seq<char>) -> ContentType {
    if ext == "md"@ || ext == "mdx"@ || ext == "rst"@ || ext == "txt"@ || ext == "adoc"@ {
        ContentType::Docs
    } else if ext == "toml"@ || ext == "yaml"@ || ext == "yml"@ || ext == "json"@ || ext == "xml"@
        || ext == "ini"@ || ext == "cfg"@ || ext == "conf"@ || ext == "env"@ || ext
        == "properties"@ {
        ContentType::Config
    } else {
        ContentType::Code
    }
}

/// The content type of the file at `path`; a file without an extension counts as code.
pub open spec fn path_content_type(path: Seq<char>) -> ContentType {
    match file_extension(path) {
        Some(ext) => content_type_of(ext),
        None => ContentType::Code,
    }
}

/// Detects the content type from the file extension.
pub fn detect_content_type(path: &str) -> (r: ContentType)
    ensures
        r == path_content_type(path@),
{
    let ext = match extension(path) {
        Some(ext) => ext,
        None => {
            return ContentType::Code;
        },
    };
    let e = ext.as_str();
    if same_text(e, "md") || same_text(e, "mdx") || same_text(e, "rst") || same_text(e, "txt")
        || same_text(e, "adoc") {
        ContentType::Docs
    } else if same_text(e, "toml") || same_text(e, "yaml") || same_text(e, "yml") || same_text(
        e,
        "json",
    ) || same_text(e, "xml") || same_text(e, "ini") || same_text(e, "cfg") || same_text(e, "conf")
        || same_text(e, "env") || same_text(e, "properties") {
        ContentType::Config
    } else {
        ContentType::Code
    }
}

/// Directories of tools, dependencies and build results.
pub open spec fn ignored_directory(name: Seq<char>) -> bool {
    ||| name == ".git"@
    ||| name == ".hg"@
    ||| name == ".svn"@
    ||| name == "node_modules"@
    ||| name == "__pycache__"@
    ||| name == ".tox"@
    ||| name == "target"@
    ||| name == "build"@
    ||| name == "dist"@
    ||| name == ".cache"@
    ||| name == ".eggs"@
    ||| name == "venv"@
    ||| name == ".venv"@
    ||| name == ".mypy_cache"@
    ||| name == ".pytest_cache"@
    ||| name == ".ruff_cache"@
}

/// A directory whose name starts with a dot, other than the current directory.
pub open spec fn hidden_directory(name: Seq<char>) -> bool {
    name.len() > 0 && name[0] == '.' && name != "."@
}

/// A directory that the walk goes into.
pub open spec fn entered_directory(name: Seq<char>) -> bool {
    !hidden_directory(name) && !ignored_directory(name)
}

/// Whether the walk goes into a directory of this name. The root of the walk is asked for too.
pub fn enters_directory(name: &str) -> (r: bool)
    ensures
        r == entered_directory(name@),
{
    let hidden = !name.is_empty() && name.get_char(0) == '.' && !same_text(name, ".");
    let ignored = same_text(name, ".git") || same_text(name, ".hg") || same_text(name, ".svn")
        || same_text(name, "node_modules") || same_text(name, "__pycache__") || same_text(
        name,
        ".tox",
    ) || same_text(name, "target") || same_text(name, "build") || same_text(name, "dist")
        || same_text(name, ".cache") || same_text(name, ".eggs") || same_text(name, "venv")
        || same_text(name, ".venv") || same_text(name, ".mypy_cache") || same_text(
        name,
        ".pytest_cache",
    ) || same_text(name, ".ruff_cache");
    !hidden && !ignored
}

/// The walk goes into all these directories.
pub open spec fn reached(directories: Seq<Seq<char>>) -> bool {
    forall|i: int| 0 <= i < directories.len() ==> entered_directory(#[trigger] directories[i])
}

/// Whether the walk goes into all these directories.
pub fn enters_all(directories: &Vec<String>) -> (r: bool)
    ensures
        r == reached(directories.deep_view()),
{
    for i in 0..directories.len()
        invariant
            forall|j: int|
                0 <= j < i ==> entered_directory(#[trigger] directories.deep_view()[j]),
    {
        if !enters_directory(directories[i].as_str()) {
            assert(!entered_directory(directories.deep_view()[i as int]));
            return false;
        }
    }
    true
}

/// The mathematical value of a walked file.
#[verifier::ext_equal]
pub struct WalkedFileView {
    pub relative_path: Seq<char>,
    pub content: Seq<char>,
    pub language: Option<Seq<char>>,
    pub content_type: ContentType,
}

impl View for WalkedFile {
    type V = WalkedFileView;

    open spec fn view(&self) -> WalkedFileView {
        WalkedFileView {
            relative_path: self.relative_path@,
            content: self.content@,
            language: self.language.deep_view(),
            content_type: self.content_type,
        }
    }
}

impl DeepView for WalkedFile {
    type V = WalkedFileView;

    open spec fn deep_view(&self) -> WalkedFileView {
        self.view()
    }
}

/// The language under which the file at `path` is indexed: documents count as Markdown,
/// configuration has none.
pub open spec fn indexed_language(path: Seq<char>) -> Option<Seq<char>> {
    match path_content_type(path) {
        ContentType::Docs => Some("markdown"@),
        ContentType::Code => path_language(path),
        ContentType::Config => None,
    }
}

/// Whether a file of this path and size is read: not too large, and a document or code in a
/// known language.
pub open spec fn readable(path: Seq<char>, size: Option<u64>) -> bool {
    &&& size matches Some(n) ==> n <= MAX_FILE_BYTES
    &&& indexed_language(path) is Some
}

/// The files that the walk reaches, in their order.
pub open spec fn entries_reached(met: Seq<MetEntry>) -> Seq<FileEntry>
    decreases met.len(),
{
    if met.len() == 0 {
        Seq::empty()
    } else {
        let before = entries_reached(met.drop_last());
        if reached(met.last().directories.deep_view()) {
            before.push(met.last().entry)
        } else {
            before
        }
    }
}

/// What becomes of a file that the walk reaches.
pub open spec fn walked_file(entry: FileEntry) -> Option<WalkedFileView> {
    match entry.content {
        Some(content) => if readable(entry.path@, entry.size) && !blank(content@) {
            Some(
                WalkedFileView {
                    relative_path: entry.relative_path@,
                    content: content@,
                    language: indexed_language(entry.path@),
                    content_type: path_content_type(entry.path@),
                },
            )
        } else {
            None
        },
        None => None,
    }
}

/// What becomes of all files that the walk reaches, in their order.
pub open spec fn walked_files(entries: Seq<FileEntry>) -> Seq<WalkedFileView>
    decreases entries.len(),
{
    if entries.len() == 0 {
        Seq::empty()
    } else {
        let before = walked_files(entries.drop_last());
        match walked_file(entries.last()) {
            Some(f) => before.push(f),
            None => before,
        }
    }
}

/// The files of a project that are indexed: those that the walk reaches, as far as they are picked.
pub open spec fn picked_files(met: Seq<MetEntry>) -> Seq<WalkedFileView> {
    walked_files(entries_reached(met))
}

/// The language under which the file at `path` is indexed.
pub fn language_for_index(path: &str) -> (r: Option<String>)
    ensures
        r.deep_view() == indexed_language(path@),
{
    match detect_content_type(path) {
        ContentType::Docs => Some("markdown".to_owned()),
        ContentType::Code => detect_language(path),
        ContentType::Config => None,
    }
}

/// Whether the text of a file is wanted, given its path and its size.
pub fn wants_content(path: &str, size: Option<u64>) -> (r: bool)
    ensures
        r == readable(path@, size),
{
    if let Some(n) = size {
        if n > MAX_FILE_BYTES {
            return false;
        }
    }
    language_for_index(path).is_some()
}

/// Keeps the files that the walk reaches: those below directories whose names are all entered.
pub fn reached_entries(met: Vec<MetEntry>) -> (r: Vec<FileEntry>)
    ensures
        r@ == entries_reached(met@),
{
    let mut entries: Vec<FileEntry> = Vec::new();
    let ghost all = met@;
    assert(entries@ =~= entries_reached(all.take(0)));
    for file in it: met
        invariant
            it.seq() == all,
            entries@ == entries_reached(all.take(it.index())),
    {
        let ghost i = it.index();
        proof {
            assert(all.take(i + 1).drop_last() =~= all.take(i));
            assert(all.take(i + 1).last() == file);
        }
        if enters_all(&file.directories) {
            entries.push(file.entry);
        }
    }
    assert(all.take(all.len() as int) =~= all);
    entries
}

/// Picks the files to index out of those below a project root.
///
/// Leaves out files in hidden directories and in those of tools and build results, files larger
/// than 1 MB, configuration, code in an unknown language, and files that could not be read or hold
/// nothing but white space.
pub fn walk_directory(met: Vec<MetEntry>) -> (r: Vec<WalkedFile>)
    ensures
        r.deep_view() == picked_files(met@),
{
    pick_files(reached_entries(met))
}

/// Picks the files to index out of those that the walk reaches.
pub fn pick_files(entries: Vec<FileEntry>) -> (r: Vec<WalkedFile>)
    ensures
        r.deep_view() == walked_files(entries@),
{
    let mut files: Vec<WalkedFile> = Vec::new();
    let ghost all = entries@;
    assert(files.deep_view() =~= walked_files(all.take(0)));
    for entry in it: entries
        invariant
            it.seq() == all,
            files.deep_view() == walked_files(all.take(it.index())),
    {
        let ghost i = it.index();
        let ghost before = files.deep_view();
        proof {
            assert(all.take(i + 1).drop_last() =~= all.take(i));
            assert(all.take(i + 1).last() == entry);
        }
        if wants_content(entry.path.as_str(), entry.size) {
            let content_type = detect_content_type(entry.path.as_str());
            let language = language_for_index(entry.path.as_str());
            if let Some(content) = entry.content {
                if !is_blank(content.as_str()) {
                    let file = WalkedFile {
                        relative_path: entry.relative_path,
                        content,
                        language,
                        content_type,
                    };
                    let ghost value = file@;
                    files.push(file);
                    assert(files.deep_view() =~= before.push(value));
                }
            }
        }
    }
    assert(all.take(all.len() as int) =~= all);
    files
}

/// A file is picked on its own: what stands before or after it plays no part, and the order is
/// kept.
pub proof fn law_files_are_picked_one_by_one(a: Seq<FileEntry>, b: Seq<FileEntry>)
    ensures
        walked_files(a + b) == walked_files(a) + walked_files(b),
    decreases b.len(),
{
    if b.len() == 0 {
        assert(a + b =~= a);
        assert(walked_files(a) + walked_files(b) =~= walked_files(a));
    } else {
        law_files_are_picked_one_by_one(a, b.drop_last());
        assert((a + b).drop_last() =~= a + b.drop_last());
        assert(walked_files(a + b) =~= walked_files(a) + walked_files(b));
    }
}

/// Every picked file was among the entries and is readable; it holds more than white space, it is
/// no configuration and it has a language, which is Markdown for documents.
pub proof fn law_picked_files(entries: Seq<FileEntry>, i: int)
    requires
        0 <= i < walked_files(entries).len(),
    ensures
        ({
            let file = walked_files(entries)[i];
            &&& exists|k: int|
                0 <= k < entries.len() && readable(
                    (#[trigger] entries[k]).path@,
                    entries[k].size,
                ) && walked_file(entries[k]) == Some(file)
            &&& !blank(file.content)
            &&& file.content_type != ContentType::Config
            &&& file.language is Some
            &&& file.content_type == ContentType::Docs ==> file.language == Some("markdown"@)
        }),
    decreases entries.len(),
{
    let rest = entries.drop_last();
    if i < walked_files(rest).len() {
        law_picked_files(rest, i);
        let file = walked_files(entries)[i];
        let k = choose|k: int|
            0 <= k < rest.len() && readable((#[trigger] rest[k]).path@, rest[k].size)
                && walked_file(rest[k]) == Some(file);
        assert(entries[k] == rest[k]);
    } else {
        assert(entries.last() == entries[entries.len() - 1]);
    }
}

/// What the walk reaches of two parts is what it reaches of each, in order.
proof fn lemma_reached_concat(a: Seq<MetEntry>, b: Seq<MetEntry>)
    ensures
        entries_reached(a + b) == entries_reached(a) + entries_reached(b),
    decreases b.len(),
{
    if b.len() == 0 {
        assert(a + b =~= a);
        assert(entries_reached(a) + entries_reached(b) =~= entries_reached(a));
    } else {
        lemma_reached_concat(a, b.drop_last());
        assert((a + b).drop_last() =~= a + b.drop_last());
        assert(entries_reached(a + b) =~= entries_reached(a) + entries_reached(b));
    }
}

/// Every entry that the walk reaches lies in directories that are all entered.
proof fn lemma_reached_entry(met: Seq<MetEntry>, i: int) -> (k: int)
    requires
        0 <= i < entries_reached(met).len(),
    ensures
        0 <= k < met.len(),
        reached(met[k].directories.deep_view()),
        met[k].entry == entries_reached(met)[i],
    decreases met.len(),
{
    let rest = met.drop_last();
    if i < entries_reached(rest).len() {
        let k = lemma_reached_entry(rest, i);
        assert(met[k] == rest[k]);
        k
    } else {
        met.len() - 1
    }
}

/// Every picked file lies in directories that are all entered, the root among them.
pub proof fn law_picked_files_are_reached(met: Seq<MetEntry>, i: int)
    requires
        0 <= i < picked_files(met).len(),
    ensures
        exists|k: int|
            0 <= k < met.len() && reached((#[trigger] met[k]).directories.deep_view())
                && readable(met[k].entry.path@, met[k].entry.size) && walked_file(met[k].entry)
                == Some(picked_files(met)[i]),
{
    let entries = entries_reached(met);
    law_picked_files(entries, i);
    let j = choose|j: int|
        0 <= j < entries.len() && readable((#[trigger] entries[j]).path@, entries[j].size)
            && walked_file(entries[j]) == Some(walked_files(entries)[i]);
    let k = lemma_reached_entry(met, j);
}

/// A file in a directory that is not entered does not count: with it and without it the same files
/// are picked.
pub proof fn law_unreached_entry_is_not_picked(a: Seq<MetEntry>, e: MetEntry, b: Seq<MetEntry>)
    requires
        !reached(e.directories.deep_view()),
    ensures
        picked_files(a.push(e) + b) == picked_files(a + b),
{
    lemma_reached_concat(a.push(e), b);
    lemma_reached_concat(a, b);
    assert(a.push(e).drop_last() =~= a);
}

/// Below a root whose name is not entered nothing is picked.
pub proof fn law_nothing_is_picked_below_an_unentered_root(met: Seq<MetEntry>, root: Seq<char>)
    requires
        !entered_directory(root),
        forall|k: int|
            0 <= k < met.len() ==> (#[trigger] met[k]).directories.deep_view().len() > 0
                && met[k].directories.deep_view()[0] == root,
    ensures
        picked_files(met).len() == 0,
{
    if picked_files(met).len() > 0 {
        law_picked_files_are_reached(met, 0);
        let k = choose|k: int|
            0 <= k < met.len() && reached((#[trigger] met[k]).directories.deep_view())
                && readable(met[k].entry.path@, met[k].entry.size) && walked_file(met[k].entry)
                == Some(picked_files(met)[0]);
        assert(entered_directory(met[k].directories.deep_view()[0]));
    }
}

} // verus!
