//! Which language a file is in, and whether the semantic pass covers it.

use vstd::prelude::*;

use crate::blast::components_of;
use crate::global::{collect_global, Repo};
use crate::sanitize::is_valid_arg;
use crate::split::{lines_of, split_on};
use crate::store::{opt_view, Store};
use crate::text::{cat3, chars_of, last_char, list_has, same, string_of};

verus! {

/// What is known of a language.
#[derive(Debug, Clone, Copy)]
pub struct LangMeta {
    pub language: &'static str,
    /// The analyser comes with the program.
    pub builtin: bool,
    pub install_hint: &'static str,
    pub underlying_tool_hint: &'static str,
}

/// The values of a language entry.
pub struct LangView {
    pub language: Seq<char>,
    pub builtin: bool,
    pub install: Seq<char>,
    pub tool: Seq<char>,
}

impl View for LangMeta {
    type V = LangView;

    open spec fn view(&self) -> LangView {
        LangView {
            language: self.language@,
            builtin: self.builtin,
            install: self.install_hint@,
            tool: self.underlying_tool_hint@,
        }
    }
}

pub open spec fn lang(
    language: Seq<char>,
    builtin: bool,
    install: Seq<char>,
    tool: Seq<char>,
) -> LangView {
    LangView { language, builtin, install, tool }
}

/// The language of a file extension.
pub open spec fn lang_of(ext: Seq<char>) -> Option<LangView> {
    if ext == ".ts"@ || ext == ".tsx"@ {
        Some(
            lang(
                "typescript"@,
                true,
                "travsr lang install typescript"@,
                ""@,
            ),
        )
    } else if ext == ".js"@ || ext == ".jsx"@ || ext == ".mjs"@ || ext == ".cjs"@ {
        Some(
            lang(
                "javascript"@,
                true,
                "travsr lang install javascript"@,
                ""@,
            ),
        )
    } else if ext == ".rs"@ {
        Some(
            lang(
                "rust"@,
                true,
                "travsr lang install rust"@,
                "rustup component add rust-analyzer"@,
            ),
        )
    } else if ext == ".py"@ {
        Some(
            lang(
                "python"@,
                true,
                "travsr lang install python"@,
                "npm install -g @sourcegraph/scip-python"@,
            ),
        )
    } else if ext == ".go"@ {
        Some(
            lang(
                "go"@,
                false,
                "travsr lang install go"@,
                "go install github.com/scip-code/scip-go/cmd/scip-go@latest"@,
            ),
        )
    } else if ext == ".java"@ {
        Some(
            lang(
                "java"@,
                false,
                "travsr lang install java"@,
                "https://github.com/sourcegraph/scip-java/releases"@,
            ),
        )
    } else if ext == ".kt"@ || ext == ".kts"@ {
        Some(
            lang(
                "kotlin"@,
                false,
                "travsr lang install kotlin"@,
                "https://github.com/sourcegraph/scip-java/releases"@,
            ),
        )
    } else if ext == ".scala"@ || ext == ".sbt"@ {
        Some(
            lang(
                "scala"@,
                false,
                "travsr lang install scala"@,
                "https://github.com/sourcegraph/scip-scala"@,
            ),
        )
    } else if ext == ".rb"@ {
        Some(
            lang(
                "ruby"@,
                false,
                "travsr lang install ruby"@,
                "https://github.com/sourcegraph/scip-ruby/releases"@,
            ),
        )
    } else if ext == ".php"@ {
        Some(
            lang(
                "php"@,
                false,
                "travsr lang install php"@,
                "https://github.com/davidrjenni/scip-php"@,
            ),
        )
    } else if ext == ".cs"@ || ext == ".csx"@ {
        Some(
            lang(
                "csharp"@,
                false,
                "travsr lang install csharp"@,
                "dotnet tool install --global scip-dotnet"@,
            ),
        )
    } else if ext == ".cpp"@ || ext == ".cc"@ || ext == ".cxx"@ || ext == ".hpp"@ {
        Some(
            lang(
                "cpp"@,
                false,
                "travsr lang install cpp"@,
                "https://github.com/sourcegraph/scip-clang/releases"@,
            ),
        )
    } else if ext == ".c"@ || ext == ".h"@ {
        Some(
            lang(
                "c"@,
                false,
                "travsr lang install c"@,
                "https://github.com/sourcegraph/scip-clang/releases"@,
            ),
        )
    } else if ext == ".swift"@ {
        Some(
            lang(
                "swift"@,
                false,
                "travsr lang install swift"@,
                "swift build -c release in travsr-lang/packages/swift-index-emitter"@,
            ),
        )
    } else if ext == ".dart"@ {
        Some(
            lang(
                "dart"@,
                false,
                "travsr lang install dart"@,
                "https://dart.dev/get-dart"@,
            ),
        )
    } else {
        None
    }
}

/// The language of a file extension, which starts with a dot.
pub fn find_lang(ext: &str) -> (r: Option<LangMeta>)
    ensures
        r is Some == lang_of(ext@) is Some,
        r matches Some(m) ==> lang_of(ext@) == Some(m@),
{
    if same(ext, ".ts") || same(ext, ".tsx") {
        Some(
            LangMeta {
                language: "typescript",
                builtin: true,
                install_hint: "travsr lang install typescript",
                underlying_tool_hint: "",
            },
        )
    } else if same(ext, ".js") || same(ext, ".jsx") || same(ext, ".mjs") || same(ext, ".cjs") {
        Some(
            LangMeta {
                language: "javascript",
                builtin: true,
                install_hint: "travsr lang install javascript",
                underlying_tool_hint: "",
            },
        )
    } else if same(ext, ".rs") {
        Some(
            LangMeta {
                language: "rust",
                builtin: true,
                install_hint: "travsr lang install rust",
                underlying_tool_hint: "rustup component add rust-analyzer",
            },
        )
    } else if same(ext, ".py") {
        Some(
            LangMeta {
                language: "python",
                builtin: true,
                install_hint: "travsr lang install python",
                underlying_tool_hint: "npm install -g @sourcegraph/scip-python",
            },
        )
    } else if same(ext, ".go") {
        Some(
            LangMeta {
                language: "go",
                builtin: false,
                install_hint: "travsr lang install go",
                underlying_tool_hint: "go install github.com/scip-code/scip-go/cmd/scip-go@latest",
            },
        )
    } else if same(ext, ".java") {
        Some(
            LangMeta {
                language: "java",
                builtin: false,
                install_hint: "travsr lang install java",
                underlying_tool_hint: "https://github.com/sourcegraph/scip-java/releases",
            },
        )
    } else if same(ext, ".kt") || same(ext, ".kts") {
        Some(
            LangMeta {
                language: "kotlin",
                builtin: false,
                install_hint: "travsr lang install kotlin",
                underlying_tool_hint: "https://github.com/sourcegraph/scip-java/releases",
            },
        )
    } else if same(ext, ".scala") || same(ext, ".sbt") {
        Some(
            LangMeta {
                language: "scala",
                builtin: false,
                install_hint: "travsr lang install scala",
                underlying_tool_hint: "https://github.com/sourcegraph/scip-scala",
            },
        )
    } else if same(ext, ".rb") {
        Some(
            LangMeta {
                language: "ruby",
                builtin: false,
                install_hint: "travsr lang install ruby",
                underlying_tool_hint: "https://github.com/sourcegraph/scip-ruby/releases",
            },
        )
    } else if same(ext, ".php") {
        Some(
            LangMeta {
                language: "php",
                builtin: false,
                install_hint: "travsr lang install php",
                underlying_tool_hint: "https://github.com/davidrjenni/scip-php",
            },
        )
    } else if same(ext, ".cs") || same(ext, ".csx") {
        Some(
            LangMeta {
                language: "csharp",
                builtin: false,
                install_hint: "travsr lang install csharp",
                underlying_tool_hint: "dotnet tool install --global scip-dotnet",
            },
        )
    } else if same(ext, ".cpp") || same(ext, ".cc") || same(ext, ".cxx") || same(ext, ".hpp") {
        Some(
            LangMeta {
                language: "cpp",
                builtin: false,
                install_hint: "travsr lang install cpp",
                underlying_tool_hint: "https://github.com/sourcegraph/scip-clang/releases",
            },
        )
    } else if same(ext, ".c") || same(ext, ".h") {
        Some(
            LangMeta {
                language: "c",
                builtin: false,
                install_hint: "travsr lang install c",
                underlying_tool_hint: "https://github.com/sourcegraph/scip-clang/releases",
            },
        )
    } else if same(ext, ".swift") {
        Some(
            LangMeta {
                language: "swift",
                builtin: false,
                install_hint: "travsr lang install swift",
                underlying_tool_hint: "swift build -c release in travsr-lang/packages/swift-index-emitter",
            },
        )
    } else if same(ext, ".dart") {
        Some(
            LangMeta {
                language: "dart",
                builtin: false,
                install_hint: "travsr lang install dart",
                underlying_tool_hint: "https://dart.dev/get-dart",
            },
        )
    } else {
        None
    }
}

/// The extension of a file name with its dot; none where the name has no dot, or only a leading one.
pub open spec fn dotted_extension(name: Seq<char>) -> Seq<char> {
    match crate::text::last_of(name, '.', '.') {
        Some(i) => if i == 0 {
            Seq::empty()
        } else {
            name.skip(i)
        },
        None => Seq::empty(),
    }
}

/// The extension of the file at a path.
pub open spec fn path_extension(file: Seq<char>) -> Seq<char> {
    let c = crate::blast::components(crate::split::split(file, '/', '/'));
    if c.len() == 0 || c.last() == ".."@ {
        Seq::empty()
    } else {
        dotted_extension(c.last())
    }
}

/// The extension of the file at a path, with its dot.
pub fn extension_of(file: &str) -> (r: String)
    ensures
        r@ == path_extension(file@),
{
    let parts = split_on(file, '/', '/');
    let c = components_of(&parts);
    let ghost cv = crate::text::views(c@);
    assert(cv.len() == c@.len());
    if c.len() == 0 {
        return String::new();
    }
    assert(cv.last() == c@.last()@);
    let name = &c[c.len() - 1];
    if same(name.as_str(), "..") {
        return String::new();
    }
    let cs = chars_of(name.as_str());
    match last_char(&cs, '.', '.') {
        Some(i) => if i == 0 {
            String::new()
        } else {
            let s = string_of(&cs, i, cs.len());
            assert(cs@.subrange(i as int, cs@.len() as int) =~= name@.skip(i as int));
            s
        },
        None => String::new(),
    }
}

/// A hexadecimal digit.
pub open spec fn is_hex(c: char) -> bool {
    ('0' <= c && c <= '9') || ('a' <= c && c <= 'f') || ('A' <= c && c <= 'F')
}

/// Only hexadecimal digits.
pub open spec fn all_hex(s: Seq<char>) -> bool {
    forall|i: int| 0 <= i < s.len() ==> is_hex(#[trigger] s[i])
}

fn is_all_hex(s: &str) -> (r: bool)
    ensures
        r == all_hex(s@),
{
    let cs = chars_of(s);
    let mut i: usize = 0;
    while i < cs.len()
        invariant
            cs@ == s@,
            i <= cs@.len(),
            forall|j: int| 0 <= j < i ==> is_hex(#[trigger] s@[j]),
        decreases cs@.len() - i,
    {
        let c: char = cs[i];
        if !(('0' <= c && c <= '9') || ('a' <= c && c <= 'f') || ('A' <= c && c <= 'F')) {
            assert(!is_hex(s@[i as int]));
            return false;
        }
        i += 1;
    }
    true
}

/// The commit of the semantic pass as a JSON value; null where it is unknown or no hash.
pub open spec fn commit_json(commit: Option<Seq<char>>) -> Seq<char> {
    match commit {
        Some(c) => if all_hex(c) {
            "\""@ + c + "\""@
        } else {
            "null"@
        },
        None => "null"@,
    }
}

/// What to install where the semantic pass has no data: the tool of a built-in analyser, else the
/// analyser.
pub open spec fn hint(m: LangView, available: bool) -> Seq<char> {
    if available {
        Seq::empty()
    } else if m.builtin {
        m.tool
    } else {
        m.install
    }
}

pub open spec fn bool_text(b: bool) -> Seq<char> {
    if b {
        "true"@
    } else {
        "false"@
    }
}

/// The status of a language as JSON.
pub open spec fn status_json(m: LangView, available: bool, commit: Option<Seq<char>>) -> Seq<char> {
    "{\"language\":\""@ + m.language + "\",\"builtin\":"@ + bool_text(m.builtin)
        + ",\"semantic_available\":"@ + bool_text(available) + ",\"install_hint\":\""@ + hint(
        m,
        available,
    ) + "\",\"phase_b_commit\":"@ + commit_json(commit) + "}"@
}

/// The status of the language of a file.
pub open spec fn lang_status(store: Store, file: Seq<char>) -> Seq<char> {
    match lang_of(path_extension(file)) {
        Some(m) => status_json(
            m,
            crate::text::views(store.call_languages@).contains(m.language),
            store.meta_value("phase_b_commit"@),
        ),
        None =>
            "{\"language\":\"unknown\",\"builtin\":false,\"semantic_available\":false,\"install_hint\":\"unknown language\"}"@,
    }
}

/// The status where the file is not a valid argument.
pub open spec fn no_status() -> Seq<char> {
    "{\"language\":\"unknown\",\"builtin\":false,\"semantic_available\":false,\"install_hint\":\"\"}"@
}

fn bool_str(b: bool) -> (r: &'static str)
    ensures
        r@ == bool_text(b),
{
    if b {
        "true"
    } else {
        "false"
    }
}

/// The status of the language of a file.
pub fn get_lang_status_raw(store: &Store, file: &str) -> (r: String)
    ensures
        r@ == lang_status(*store, file@),
{
    let ext = extension_of(file);
    let meta: LangMeta = match find_lang(ext.as_str()) {
        Some(m) => m,
        None => {
            return "{\"language\":\"unknown\",\"builtin\":false,\"semantic_available\":false,\"install_hint\":\"unknown language\"}".to_owned();
        },
    };
    let available = list_has(&store.call_languages, meta.language);
    let commit = match store.get_meta("phase_b_commit") {
        Some(c) => if is_all_hex(c.as_str()) {
            cat3("\"", c.as_str(), "\"")
        } else {
            "null".to_owned()
        },
        None => "null".to_owned(),
    };
    let mut s = cat3("{\"language\":\"", meta.language, "\",\"builtin\":");
    s.append(bool_str(meta.builtin));
    s.append(",\"semantic_available\":");
    s.append(bool_str(available));
    s.append(",\"install_hint\":\"");
    let ghost before = s@;
    if !available {
        if meta.builtin {
            s.append(meta.underlying_tool_hint);
        } else {
            s.append(meta.install_hint);
        }
    }
    assert(s@ =~= before + hint(meta@, available));
    s.append("\",\"phase_b_commit\":");
    s.append(commit.as_str());
    s.append("}");
    s
}

/// Which language a file is in and whether semantic data exists for it, as JSON.
pub fn get_lang_status(store: &Store, file: &str) -> (r: String)
    ensures
        r@ == (if crate::sanitize::arg_ok(file@) {
            lang_status(*store, file@)
        } else {
            no_status()
        }),
{
    if !is_valid_arg(file) {
        return "{\"language\":\"unknown\",\"builtin\":false,\"semantic_available\":false,\"install_hint\":\"\"}".to_owned();
    }
    get_lang_status_raw(store, file)
}

/// The status over the registered repositories: that of the first that answers.
pub open spec fn lang_status_global(
    repos: Seq<Repo>,
    file: Seq<char>,
    repo: Option<Seq<char>>,
) -> Seq<char> {
    let raw = crate::global::gathered(
        repos,
        repo,
        |r: Repo, s: Store, single: bool| lang_status(s, file),
    );
    if !crate::sanitize::arg_ok(file) || raw.len() == 0 {
        no_status()
    } else if crate::split::lines(raw).len() > 0 {
        crate::split::lines(raw)[0]
    } else {
        Seq::empty()
    }
}

/// The language status of a file in one named repository, or in the first of all.
pub fn get_lang_status_global(repos: &Vec<Repo>, file: &str, repo: Option<&str>) -> (r: String)
    ensures
        r@ == lang_status_global(repos@, file@, opt_view(repo)),
{
    if !is_valid_arg(file) {
        return "{\"language\":\"unknown\",\"builtin\":false,\"semantic_available\":false,\"install_hint\":\"\"}".to_owned();
    }
    let f = |x: &Repo, s: &Store, single: bool| -> (o: String)
        ensures
            o@ == lang_status(*s, file@),
        { get_lang_status_raw(s, file) };
    let raw = collect_global(
        repos,
        repo,
        f,
        Ghost(|r: Repo, s: Store, single: bool| lang_status(s, file@)),
    );
    if raw.as_str().is_empty() {
        return "{\"language\":\"unknown\",\"builtin\":false,\"semantic_available\":false,\"install_hint\":\"\"}".to_owned();
    }
    let ls = lines_of(raw.as_str());
    let ghost want = crate::split::lines(raw@);
    assert(want.len() == ls@.len());
    if ls.len() > 0 {
        assert(want[0] == ls@[0]@);
        ls[0].clone()
    } else {
        String::new()
    }
}

} // verus!
