//! Which files a walk picks and lists, and what it takes them for.
use vstd::prelude::*;

#[allow(unused_imports)]
use crate::listing::listed_files;
#[allow(unused_imports)]
use crate::text::{blank, is_white_space};
#[allow(unused_imports)]
use crate::types::ContentType;
#[allow(unused_imports)]
use crate::walk::{
    content_type_of, entered_directory, entries_reached, file_extension, file_name,
    indexed_language, language_of, last_index_of,
    law_files_are_picked_one_by_one, path_content_type, path_language, picked_files, reached,
    readable, walked_files, MetEntry, WalkedFileView,
};

verus! {

/// White space are the characters that Unicode names so, and no others.
pub proof fn law_white_space(c: char)
    ensures
        is_white_space(c) <==> {
            let code = c as u32;
            9 <= code <= 13 || code == 32 || code == 133 || code == 160 || code == 5760 || 8192
                <= code <= 8202 || code == 8232 || code == 8233 || code == 8239 || code == 8287
                || code == 12288
        },
{
}

/// A text is blank if it holds no character other than white space.
pub proof fn law_blank(text: Seq<char>)
    ensures
        !blank(text) <==> exists|i: int| 0 <= i < text.len() && !is_white_space(#[trigger] text[i]),
{
}

/// The name does not keep the walk out of a directory: it does not start with a dot, unless it is
/// that of the current directory, and it is none of six names for dependencies and build results.
pub open spec fn open_name(name: Seq<char>) -> bool {
    &&& name.len() == 0 || name[0] != '.' || name.len() == 1
    &&& name != "node_modules"@
    &&& name != "__pycache__"@
    &&& name != "target"@
    &&& name != "build"@
    &&& name != "dist"@
    &&& name != "venv"@
}

/// The walk goes into every directory with an open name, and into no other.
pub proof fn law_entered_directories(name: Seq<char>)
    ensures
        entered_directory(name) <==> open_name(name),
{
    reveal_strlit(".");
    reveal_strlit(".git");
    reveal_strlit(".hg");
    reveal_strlit(".svn");
    reveal_strlit(".tox");
    reveal_strlit(".cache");
    reveal_strlit(".eggs");
    reveal_strlit(".venv");
    reveal_strlit(".mypy_cache");
    reveal_strlit(".pytest_cache");
    reveal_strlit(".ruff_cache");
    if name.len() == 1 && name[0] == '.' {
        assert(name =~= "."@);
    }
    if name == "."@ {
        assert(name.len() == 1);
        assert(name[0] == '.');
        assert(name != ".git"@ && name != ".hg"@ && name != ".svn"@ && name != ".tox"@ && name
            != ".cache"@ && name != ".eggs"@ && name != ".venv"@ && name != ".mypy_cache"@ && name
            != ".pytest_cache"@ && name != ".ruff_cache"@);
    }
    assert(".git"@[0] == '.' && ".hg"@[0] == '.' && ".svn"@[0] == '.' && ".tox"@[0] == '.'
        && ".cache"@[0] == '.' && ".eggs"@[0] == '.' && ".venv"@[0] == '.' && ".mypy_cache"@[0]
        == '.' && ".pytest_cache"@[0] == '.' && ".ruff_cache"@[0] == '.');
}

/// All directories on the way have open names, however many they are.
pub open spec fn open_way(directories: Seq<Seq<char>>) -> bool {
    forall|i: int| 0 <= i < directories.len() ==> open_name(#[trigger] directories[i])
}

/// A file is reached exactly if all directories on the way to it are entered.
pub proof fn law_reached(directories: Seq<Seq<char>>)
    ensures
        reached(directories) <==> open_way(directories),
{
    assert forall|i: int| 0 <= i < directories.len() implies entered_directory(
        #[trigger] directories[i],
    ) == open_name(directories[i]) by {
        law_entered_directories(directories[i]);
    }
    if reached(directories) {
        assert forall|i: int| 0 <= i < directories.len() implies open_name(
            #[trigger] directories[i],
        ) by {
            assert(entered_directory(directories[i]));
        }
    }
    if open_way(directories) {
        assert forall|i: int| 0 <= i < directories.len() implies entered_directory(
            #[trigger] directories[i],
        ) by {
            assert(open_name(directories[i]));
        }
    }
}

proof fn lemma_last_index(a: Seq<char>, c: char, b: Seq<char>)
    requires
        !b.contains(c),
    ensures
        last_index_of(a + seq![c] + b, c) == a.len(),
    decreases b.len(),
{
    let s = a + seq![c] + b;
    if b.len() == 0 {
        assert(s.last() == c);
    } else {
        assert(b.contains(b.last()));
        assert(s.last() == b.last());
        assert forall|x: char| b.drop_last().contains(x) implies b.contains(x) by {
            let i = choose|i: int| 0 <= i < b.drop_last().len() && b.drop_last()[i] == x;
            assert(b[i] == x);
        }
        lemma_last_index(a, c, b.drop_last());
        assert(s.drop_last() =~= a + seq![c] + b.drop_last());
    }
}

proof fn lemma_no_index(b: Seq<char>, c: char)
    requires
        !b.contains(c),
    ensures
        last_index_of(b, c) == -1,
    decreases b.len(),
{
    if b.len() > 0 {
        assert(b.contains(b.last()));
        assert forall|x: char| b.drop_last().contains(x) implies b.contains(x) by {
            let i = choose|i: int| 0 <= i < b.drop_last().len() && b.drop_last()[i] == x;
            assert(b[i] == x);
        }
        lemma_no_index(b.drop_last(), c);
    }
}

/// `path` is `name`, or `name` in a directory.
pub open spec fn ends_in(path: Seq<char>, directory: Seq<char>, name: Seq<char>) -> bool {
    path == name || path == directory + seq!['/'] + name
}

proof fn lemma_file_name(path: Seq<char>, directory: Seq<char>, name: Seq<char>)
    requires
        ends_in(path, directory, name),
        name.len() > 0,
        !name.contains('/'),
    ensures
        name != "."@ && name != ".."@ ==> file_name(path) == Some(name),
        name == ".."@ ==> file_name(path) is None,
{
    reveal_strlit(".");
    reveal_strlit("..");
    if path == name {
        lemma_no_index(name, '/');
        assert(path.skip(0) =~= name);
    } else {
        lemma_last_index(directory, '/', name);
        assert(path.skip(directory.len() as int + 1) =~= name);
    }
    assert("."@.len() == 1 && ".."@.len() == 2);
}

/// The extension is what follows the last dot of the file name, whatever the directory.
pub proof fn law_extension(
    path: Seq<char>,
    directory: Seq<char>,
    stem: Seq<char>,
    extension: Seq<char>,
)
    requires
        ends_in(path, directory, stem + seq!['.'] + extension),
        stem.len() > 0,
        !stem.contains('/'),
        !extension.contains('/'),
        !extension.contains('.'),
        stem != "."@ || extension.len() > 0,
    ensures
        file_extension(path) == Some(extension),
{
    reveal_strlit(".");
    reveal_strlit("..");
    let name = stem + seq!['.'] + extension;
    assert(!name.contains('/')) by {
        if name.contains('/') {
            let i = choose|i: int| 0 <= i < name.len() && name[i] == '/';
            if i < stem.len() {
                assert(stem[i] == '/');
            } else if i > stem.len() {
                assert(extension[i - stem.len() - 1] == '/');
            }
        }
    }
    assert("."@.len() == 1 && ".."@.len() == 2);
    assert(name != ".."@) by {
        if name == ".."@ {
            assert(".."@[0] == '.');
            assert(stem[0] == name[0]);
            assert(stem =~= "."@);
        }
    }
    lemma_file_name(path, directory, name);
    lemma_last_index(stem, '.', extension);
    assert(name.skip(stem.len() as int + 1) =~= extension);
}

/// A file name without a dot, or with its only dot in front, has no extension.
pub proof fn law_no_extension(path: Seq<char>, directory: Seq<char>, name: Seq<char>)
    requires
        name.len() > 0,
        !name.contains('/'),
        !name.contains('.'),
        ends_in(path, directory, name) || ends_in(path, directory, seq!['.'] + name),
    ensures
        file_extension(path) is None,
{
    reveal_strlit(".");
    reveal_strlit("..");
    assert("."@.len() == 1 && ".."@.len() == 2 && "."@[0] == '.' && ".."@[1] == '.');
    assert(name.contains(name[0]));
    if ends_in(path, directory, name) {
        assert(name != "."@ && name != ".."@) by {
            assert(name[0] != '.');
            assert(".."@[0] == '.');
        }
        lemma_file_name(path, directory, name);
        lemma_no_index(name, '.');
    } else {
        let full = seq!['.'] + name;
        assert(full[1] == name[0]);
        assert(!full.contains('/')) by {
            if full.contains('/') {
                let i = choose|i: int| 0 <= i < full.len() && full[i] == '/';
                if i > 0 {
                    assert(name[i - 1] == '/');
                }
            }
        }
        lemma_file_name(path, directory, full);
        lemma_last_index(Seq::empty(), '.', name);
        assert(Seq::<char>::empty() + seq!['.'] + name =~= full);
    }
}

/// A slash, or a slash and a dot, behind a path does not change its extension; a path that ends in
/// the parent directory has none.
pub proof fn law_extension_of_directories(path: Seq<char>)
    ensures
        file_extension(path + seq!['/']) == file_extension(path),
        file_extension(path + seq!['/', '.']) == file_extension(path),
        file_extension(path + seq!['/', '.', '.']) is None,
{
    reveal_strlit(".");
    reveal_strlit("..");
    let a = path + seq!['/'];
    lemma_last_index(path, '/', Seq::empty());
    assert(path + seq!['/'] + Seq::<char>::empty() =~= a);
    assert(a.skip(path.len() as int + 1).len() == 0);
    assert(a.take(path.len() as int) =~= path);
    let b = path + seq!['/', '.'];
    let dot = seq!['.'];
    assert(!dot.contains('/'));
    lemma_last_index(path, '/', dot);
    assert(path + seq!['/'] + dot =~= b);
    assert(b.skip(path.len() as int + 1) =~= dot);
    assert(dot =~= "."@);
    assert(b.take(path.len() as int) =~= path);
    let c = path + seq!['/', '.', '.'];
    let dots = seq!['.', '.'];
    assert(!dots.contains('/'));
    assert(path + seq!['/'] + dots =~= c);
    assert(dots =~= ".."@);
    lemma_file_name(c, path, dots);
}

/// The languages of extensions: no other extension has one, and none has another.
pub proof fn law_languages(ext: Seq<char>, name: Seq<char>)
    ensures
        language_of(ext) is Some <==> (ext == "py"@ || ext == "rs"@ || ext == "js"@ || ext == "jsx"@
            || ext == "mjs"@ || ext == "cjs"@ || ext == "ts"@ || ext == "mts"@ || ext == "cts"@
            || ext == "tsx"@ || ext == "go"@ || ext == "java"@ || ext == "rb"@ || ext == "php"@
            || ext == "c"@ || ext == "h"@ || ext == "cpp"@ || ext == "cc"@ || ext == "cxx"@ || ext
            == "hpp"@ || ext == "hxx"@ || ext == "cs"@ || ext == "swift"@ || ext == "kt"@ || ext
            == "kts"@ || ext == "scala"@ || ext == "dart"@ || ext == "lua"@ || ext == "sh"@ || ext
            == "bash"@ || ext == "zsh"@ || ext == "r"@ || ext == "R"@ || ext == "sql"@ || ext
            == "ex"@ || ext == "exs"@ || ext == "erl"@ || ext == "hrl"@ || ext == "hs"@ || ext
            == "ml"@ || ext == "mli"@),
        language_of(ext) == Some(name) ==> (name == "python"@ && ext == "py"@) || (name == "rust"@
            && ext == "rs"@) || (name == "javascript"@ && (ext == "js"@ || ext == "jsx"@ || ext
            == "mjs"@ || ext == "cjs"@)) || (name == "typescript"@ && (ext == "ts"@ || ext
            == "mts"@ || ext == "cts"@)) || (name == "tsx"@ && ext == "tsx"@) || (name == "go"@
            && ext == "go"@) || (name == "java"@ && ext == "java"@) || (name == "ruby"@ && ext
            == "rb"@) || (name == "php"@ && ext == "php"@) || (name == "c"@ && (ext == "c"@ || ext
            == "h"@)) || (name == "cpp"@ && (ext == "cpp"@ || ext == "cc"@ || ext == "cxx"@ || ext
            == "hpp"@ || ext == "hxx"@)) || (name == "csharp"@ && ext == "cs"@) || (name
            == "swift"@ && ext == "swift"@) || (name == "kotlin"@ && (ext == "kt"@ || ext
            == "kts"@)) || (name == "scala"@ && ext == "scala"@) || (name == "dart"@ && ext
            == "dart"@) || (name == "lua"@ && ext == "lua"@) || (name == "bash"@ && (ext == "sh"@
            || ext == "bash"@ || ext == "zsh"@)) || (name == "r"@ && (ext == "r"@ || ext == "R"@))
            || (name == "sql"@ && ext == "sql"@) || (name == "elixir"@ && (ext == "ex"@ || ext
            == "exs"@)) || (name == "erlang"@ && (ext == "erl"@ || ext == "hrl"@)) || (name
            == "haskell"@ && ext == "hs"@) || (name == "ocaml"@ && (ext == "ml"@ || ext == "mli"@)),
{
}

/// The content types of extensions: documents and configuration have theirs, all else is code.
pub proof fn law_content_types(ext: Seq<char>)
    ensures
        content_type_of(ext) == ContentType::Docs <==> (ext == "md"@ || ext == "mdx"@ || ext
            == "rst"@ || ext == "txt"@ || ext == "adoc"@),
        content_type_of(ext) == ContentType::Config ==> (ext == "toml"@ || ext == "yaml"@ || ext
            == "yml"@ || ext == "json"@ || ext == "xml"@ || ext == "ini"@ || ext == "cfg"@ || ext
            == "conf"@ || ext == "env"@ || ext == "properties"@),
        content_type_of(ext) == ContentType::Code ==> !(ext == "toml"@ || ext == "yaml"@ || ext
            == "yml"@ || ext == "json"@ || ext == "xml"@ || ext == "ini"@ || ext == "cfg"@ || ext
            == "conf"@ || ext == "env"@ || ext == "properties"@),
{
}

/// The type and the language of a path are those of its extension; without one it is code in no
/// language. Documents are indexed as Markdown, configuration is not.
pub proof fn law_paths(path: Seq<char>)
    ensures
        file_extension(path) is None ==> path_content_type(path) == ContentType::Code
            && path_language(path) is None && indexed_language(path) is None,
        file_extension(path) matches Some(ext) ==> {
            &&& path_content_type(path) == content_type_of(ext)
            &&& path_language(path) == language_of(ext)
            &&& content_type_of(ext) == ContentType::Docs ==> indexed_language(path) == Some(
                "markdown"@,
            )
            &&& content_type_of(ext) == ContentType::Code ==> indexed_language(path)
                == language_of(ext)
            &&& content_type_of(ext) == ContentType::Config ==> indexed_language(path) is None
        },
{
}

/// The file is to be indexed: the way to it is open, it is a document or code in a known language,
/// it has no more than 1 MB, and it was read and holds more than white space.
pub open spec fn wanted(met: MetEntry) -> bool {
    &&& open_way(met.directories.deep_view())
    &&& file_extension(met.entry.path@) matches Some(ext) && (content_type_of(ext)
        == ContentType::Docs || (content_type_of(ext) == ContentType::Code && language_of(
        ext,
    ) is Some))
    &&& met.entry.size matches Some(n) ==> n <= 1_000_000
    &&& met.entry.content matches Some(text) && exists|i: int|
        0 <= i < text@.len() && !is_white_space(#[trigger] text@[i])
}

/// `file` is the file of `met` as it is indexed.
pub open spec fn indexed_as(met: MetEntry, file: WalkedFileView) -> bool {
    &&& file.relative_path == met.entry.relative_path@
    &&& met.entry.content matches Some(text) && file.content == text@
    &&& file.content_type == path_content_type(met.entry.path@)
    &&& file.language == if file.content_type == ContentType::Docs {
        Some("markdown"@)
    } else {
        path_language(met.entry.path@)
    }
}

/// Of one file, it is picked if it is wanted, and nothing is picked if it is not.
pub proof fn law_one_file(met: MetEntry)
    ensures
        wanted(met) ==> picked_files(seq![met]).len() == 1 && indexed_as(
            met,
            picked_files(seq![met])[0],
        ),
        !wanted(met) ==> picked_files(seq![met]).len() == 0,
{
    let one = seq![met];
    law_reached(met.directories.deep_view());
    law_paths(met.entry.path@);
    assert(one.last() == met);
    assert(one.drop_last() =~= Seq::empty());
    assert(entries_reached(one.drop_last()) =~= Seq::empty());
    let entries = entries_reached(one);
    if reached(met.directories.deep_view()) {
        assert(entries =~= seq![met.entry]);
        assert(entries.last() == met.entry);
        assert(entries.drop_last() =~= Seq::empty());
        assert(walked_files(entries.drop_last()) =~= Seq::empty());
        if let Some(text) = met.entry.content {
            law_blank(text@);
        }
    } else {
        assert(entries =~= Seq::empty());
    }
}

/// Files are picked one by one, in their order.
pub proof fn law_files_add_up(a: Seq<MetEntry>, b: Seq<MetEntry>)
    ensures
        picked_files(a + b) == picked_files(a) + picked_files(b),
{
    lemma_reached_adds_up(a, b);
    law_files_are_picked_one_by_one(entries_reached(a), entries_reached(b));
}

proof fn lemma_reached_adds_up(a: Seq<MetEntry>, b: Seq<MetEntry>)
    ensures
        entries_reached(a + b) == entries_reached(a) + entries_reached(b),
    decreases b.len(),
{
    if b.len() == 0 {
        assert(a + b =~= a);
        assert(entries_reached(a) + entries_reached(b) =~= entries_reached(a));
    } else {
        lemma_reached_adds_up(a, b.drop_last());
        assert((a + b).drop_last() =~= a + b.drop_last());
        assert(entries_reached(a + b) =~= entries_reached(a) + entries_reached(b));
    }
}

/// Every wanted file is picked, however many directories it lies in and whatever else there is.
pub proof fn law_every_wanted_file_is_picked(met: Seq<MetEntry>, k: int)
    requires
        0 <= k < met.len(),
        wanted(met[k]),
    ensures
        exists|i: int|
            0 <= i < picked_files(met).len() && indexed_as(
                met[k],
                #[trigger] picked_files(met)[i],
            ),
{
    let before = met.take(k);
    let one = seq![met[k]];
    let after = met.skip(k + 1);
    assert(met =~= before + one + after);
    law_files_add_up(before, one);
    law_files_add_up(before + one, after);
    law_one_file(met[k]);
    let i = picked_files(before).len() as int;
    assert(picked_files(met)[i] == picked_files(one)[0]);
}

/// Nothing but wanted files is picked.
pub proof fn law_only_wanted_files_are_picked(met: Seq<MetEntry>, i: int)
    requires
        0 <= i < picked_files(met).len(),
    ensures
        exists|k: int|
            0 <= k < met.len() && wanted(#[trigger] met[k]) && indexed_as(
                met[k],
                picked_files(met)[i],
            ),
    decreases met.len(),
{
    if met.len() == 0 {
        assert(entries_reached(met) =~= Seq::empty());
    } else {
        let rest = met.drop_last();
        let one = seq![met.last()];
        assert(met =~= rest + one);
        law_files_add_up(rest, one);
        law_one_file(met.last());
        if i < picked_files(rest).len() {
            law_only_wanted_files_are_picked(rest, i);
            let k = choose|k: int|
                0 <= k < rest.len() && wanted(#[trigger] rest[k]) && indexed_as(
                    rest[k],
                    picked_files(rest)[i],
                );
            assert(met[k] == rest[k]);
        } else {
            assert(met[met.len() - 1] == met.last());
        }
    }
}

/// Of one file, it is listed exactly if the way to it is open, and files are listed one by one, in
/// their order.
pub proof fn law_listed_files(
    a: Seq<(Seq<Seq<char>>, (Seq<char>, u64))>,
    b: Seq<(Seq<Seq<char>>, (Seq<char>, u64))>,
    file: (Seq<Seq<char>>, (Seq<char>, u64)),
)
    ensures
        listed_files(a + b) == listed_files(a) + listed_files(b),
        open_way(file.0) ==> listed_files(seq![file]) == seq![file.1],
        !open_way(file.0) ==> listed_files(seq![file]).len() == 0,
    decreases b.len(),
{
    law_reached(file.0);
    let one = seq![file];
    assert(one.drop_last() =~= Seq::empty());
    assert(one.last() == file);
    assert(listed_files(one.drop_last()) =~= Seq::empty());
    if open_way(file.0) {
        assert(listed_files(one) =~= seq![file.1]);
    }
    if b.len() == 0 {
        assert(a + b =~= a);
        assert(listed_files(a) + listed_files(b) =~= listed_files(a));
    } else {
        law_listed_files(a, b.drop_last(), file);
        assert((a + b).drop_last() =~= a + b.drop_last());
        assert(listed_files(a + b) =~= listed_files(a) + listed_files(b));
    }
}

/// The text of a file is wanted exactly if it has at most 1 MB, or nobody knows how many bytes, and
/// is a document or code in a known language.
pub proof fn law_readable(path: Seq<char>, size: Option<u64>)
    ensures
        readable(path, size) <==> {
            &&& size matches Some(n) ==> n <= 1_000_000
            &&& file_extension(path) matches Some(ext) && (content_type_of(ext) == ContentType::Docs
                || (content_type_of(ext) == ContentType::Code && language_of(ext) is Some))
        },
{
    law_paths(path);
}

/// Of one file, it is reached exactly if the way to it is open, and files are reached one by one, in
/// their order.
pub proof fn law_reached_entries(a: Seq<MetEntry>, b: Seq<MetEntry>, met: MetEntry)
    ensures
        entries_reached(a + b) == entries_reached(a) + entries_reached(b),
        open_way(met.directories.deep_view()) ==> entries_reached(seq![met]) == seq![met.entry],
        !open_way(met.directories.deep_view()) ==> entries_reached(seq![met]).len() == 0,
{
    lemma_reached_adds_up(a, b);
    law_reached(met.directories.deep_view());
    let one = seq![met];
    assert(one.drop_last() =~= Seq::empty());
    assert(one.last() == met);
    assert(entries_reached(one.drop_last()) =~= Seq::empty());
    if open_way(met.directories.deep_view()) {
        assert(entries_reached(one) =~= seq![met.entry]);
    }
}

} // verus!
