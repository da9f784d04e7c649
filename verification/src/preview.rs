//! What may be shown in-line: the allowlist of previewable file
//! extensions, std-style extension extraction, and the cosmetic
//! source-language label used by the preview page.
use vstd::prelude::*;
use crate::chars::{matches_ci, starts_with_ci, str_eq_ci, str_starts_with_ci};

verus! {

/// Index of the `.` that starts the extension within `s`, scanning
/// positions `1..=i`; `0` when there is none.  A leading dot alone
/// (a hidden file such as a shell profile) starts no extension.
pub open spec fn ext_start(s: Seq<char>, i: int) -> int
    decreases i,
{
    if i < 1 {
        0
    } else if s[i] == '.' {
        i
    } else {
        ext_start(s, i - 1)
    }
}

pub proof fn lemma_ext_start_bounds(s: Seq<char>, i: int)
    ensures
        0 <= ext_start(s, i),
        ext_start(s, i) <= i || ext_start(s, i) == 0,
    decreases i,
{
    if i >= 1 {
        lemma_ext_start_bounds(s, i - 1);
    }
}

/// The extension of file name `s`: the text after the last dot, where
/// that dot is not the leading character; empty when there is none.
pub open spec fn extension_of(s: Seq<char>) -> Seq<char> {
    let j = ext_start(s, s.len() - 1);
    if j == 0 {
        Seq::empty()
    } else {
        s.subrange(j + 1, s.len() as int)
    }
}

fn ext_begin(name: &str) -> (j: usize)
    ensures
        j as int == ext_start(name@, name@.len() - 1),
{
    let n: usize = name.unicode_len();
    let mut i: usize = n;
    while i > 1
        invariant
            n == name@.len(),
            1 <= i <= n || (n <= 1 && i == n),
            ext_start(name@, n - 1) == ext_start(name@, i - 1),
        decreases i,
    {
        if name.get_char(i - 1) == '.' {
            return i - 1;
        }
        i -= 1;
    }
    0
}

/// The extension of `name`, as `extension_of` describes it.
pub fn file_extension<'a>(name: &'a str) -> (r: &'a str)
    ensures
        r@ == extension_of(name@),
{
    let n: usize = name.unicode_len();
    let j: usize = ext_begin(name);
    proof {
        lemma_ext_start_bounds(name@, n as int - 1);
    }
    if j == 0 {
        let e: &str = "";
        proof {
            reveal_strlit("");
            assert(e@ =~= Seq::<char>::empty());
        }
        e
    } else {
        name.substring_char(j + 1, n)
    }
}

/// The extension (compared without regard to ASCII case) is on the
/// allowlist of text-like files that the server previews in-line.
pub open spec fn ext_allowed(e: Seq<char>) -> bool {
    ||| matches_ci(e, "rs"@)
    ||| matches_ci(e, "py"@)
    ||| matches_ci(e, "js"@)
    ||| matches_ci(e, "ts"@)
    ||| matches_ci(e, "jsx"@)
    ||| matches_ci(e, "tsx"@)
    ||| matches_ci(e, "html"@)
    ||| matches_ci(e, "htm"@)
    ||| matches_ci(e, "css"@)
    ||| matches_ci(e, "scss"@)
    ||| matches_ci(e, "sass"@)
    ||| matches_ci(e, "less"@)
    ||| matches_ci(e, "json"@)
    ||| matches_ci(e, "xml"@)
    ||| matches_ci(e, "yaml"@)
    ||| matches_ci(e, "yml"@)
    ||| matches_ci(e, "toml"@)
    ||| matches_ci(e, "ini"@)
    ||| matches_ci(e, "cfg"@)
    ||| matches_ci(e, "conf"@)
    ||| matches_ci(e, "config"@)
    ||| matches_ci(e, "txt"@)
    ||| matches_ci(e, "md"@)
    ||| matches_ci(e, "markdown"@)
    ||| matches_ci(e, "rst"@)
    ||| matches_ci(e, "log"@)
    ||| matches_ci(e, "csv"@)
    ||| matches_ci(e, "tsv"@)
    ||| matches_ci(e, "c"@)
    ||| matches_ci(e, "cpp"@)
    ||| matches_ci(e, "cc"@)
    ||| matches_ci(e, "cxx"@)
    ||| matches_ci(e, "h"@)
    ||| matches_ci(e, "hpp"@)
    ||| matches_ci(e, "hxx"@)
    ||| matches_ci(e, "java"@)
    ||| matches_ci(e, "kt"@)
    ||| matches_ci(e, "scala"@)
    ||| matches_ci(e, "go"@)
    ||| matches_ci(e, "rb"@)
    ||| matches_ci(e, "php"@)
    ||| matches_ci(e, "sh"@)
    ||| matches_ci(e, "bash"@)
    ||| matches_ci(e, "zsh"@)
    ||| matches_ci(e, "fish"@)
    ||| matches_ci(e, "sql"@)
    ||| matches_ci(e, "dockerfile"@)
    ||| matches_ci(e, "makefile"@)
    ||| matches_ci(e, "cmake"@)
    ||| matches_ci(e, "gradle"@)
    ||| matches_ci(e, "vue"@)
    ||| matches_ci(e, "svelte"@)
    ||| matches_ci(e, "dart"@)
    ||| matches_ci(e, "swift"@)
    ||| matches_ci(e, "r"@)
    ||| matches_ci(e, "m"@)
    ||| matches_ci(e, "mm"@)
    ||| matches_ci(e, "pl"@)
    ||| matches_ci(e, "pm"@)
    ||| matches_ci(e, "lua"@)
    ||| matches_ci(e, "ps1"@)
    ||| matches_ci(e, "psm1"@)
    ||| matches_ci(e, "psd1"@)
    ||| matches_ci(e, "tex"@)
    ||| matches_ci(e, "latex"@)
    ||| matches_ci(e, "bib"@)
    ||| matches_ci(e, "cls"@)
    ||| matches_ci(e, "sty"@)
}

/// A file of this name may be previewed: its extension is allowlisted.
pub open spec fn is_previewable_name(s: Seq<char>) -> bool {
    ext_allowed(extension_of(s))
}

fn ext_allowed_str(e: &str) -> (r: bool)
    ensures
        r == ext_allowed(e@),
{
    str_eq_ci(e, "rs")
    || str_eq_ci(e, "py")
    || str_eq_ci(e, "js")
    || str_eq_ci(e, "ts")
    || str_eq_ci(e, "jsx")
    || str_eq_ci(e, "tsx")
    || str_eq_ci(e, "html")
    || str_eq_ci(e, "htm")
    || str_eq_ci(e, "css")
    || str_eq_ci(e, "scss")
    || str_eq_ci(e, "sass")
    || str_eq_ci(e, "less")
    || str_eq_ci(e, "json")
    || str_eq_ci(e, "xml")
    || str_eq_ci(e, "yaml")
    || str_eq_ci(e, "yml")
    || str_eq_ci(e, "toml")
    || str_eq_ci(e, "ini")
    || str_eq_ci(e, "cfg")
    || str_eq_ci(e, "conf")
    || str_eq_ci(e, "config")
    || str_eq_ci(e, "txt")
    || str_eq_ci(e, "md")
    || str_eq_ci(e, "markdown")
    || str_eq_ci(e, "rst")
    || str_eq_ci(e, "log")
    || str_eq_ci(e, "csv")
    || str_eq_ci(e, "tsv")
    || str_eq_ci(e, "c")
    || str_eq_ci(e, "cpp")
    || str_eq_ci(e, "cc")
    || str_eq_ci(e, "cxx")
    || str_eq_ci(e, "h")
    || str_eq_ci(e, "hpp")
    || str_eq_ci(e, "hxx")
    || str_eq_ci(e, "java")
    || str_eq_ci(e, "kt")
    || str_eq_ci(e, "scala")
    || str_eq_ci(e, "go")
    || str_eq_ci(e, "rb")
    || str_eq_ci(e, "php")
    || str_eq_ci(e, "sh")
    || str_eq_ci(e, "bash")
    || str_eq_ci(e, "zsh")
    || str_eq_ci(e, "fish")
    || str_eq_ci(e, "sql")
    || str_eq_ci(e, "dockerfile")
    || str_eq_ci(e, "makefile")
    || str_eq_ci(e, "cmake")
    || str_eq_ci(e, "gradle")
    || str_eq_ci(e, "vue")
    || str_eq_ci(e, "svelte")
    || str_eq_ci(e, "dart")
    || str_eq_ci(e, "swift")
    || str_eq_ci(e, "r")
    || str_eq_ci(e, "m")
    || str_eq_ci(e, "mm")
    || str_eq_ci(e, "pl")
    || str_eq_ci(e, "pm")
    || str_eq_ci(e, "lua")
    || str_eq_ci(e, "ps1")
    || str_eq_ci(e, "psm1")
    || str_eq_ci(e, "psd1")
    || str_eq_ci(e, "tex")
    || str_eq_ci(e, "latex")
    || str_eq_ci(e, "bib")
    || str_eq_ci(e, "cls")
    || str_eq_ci(e, "sty")
}

/// Decides `is_previewable_name` for a file name.
pub fn previewable_name(name: &str) -> (r: bool)
    ensures
        r == is_previewable_name(name@),
{
    let e: &str = file_extension(name);
    ext_allowed_str(e)
}

/// The label for an extension alone, the bulk of `language_of`.
pub open spec fn ext_language(e: Seq<char>) -> Seq<char> {
    if matches_ci(e, "rs"@) {
        "rust"@
    } else if matches_ci(e, "py"@) {
        "python"@
    } else if matches_ci(e, "js"@) || matches_ci(e, "mjs"@) {
        "javascript"@
    } else if matches_ci(e, "ts"@) {
        "typescript"@
    } else if matches_ci(e, "jsx"@) {
        "javascript"@
    } else if matches_ci(e, "tsx"@) {
        "typescript"@
    } else if matches_ci(e, "html"@) || matches_ci(e, "htm"@) {
        "html"@
    } else if matches_ci(e, "css"@) {
        "css"@
    } else if matches_ci(e, "scss"@) {
        "scss"@
    } else if matches_ci(e, "sass"@) {
        "sass"@
    } else if matches_ci(e, "less"@) {
        "less"@
    } else if matches_ci(e, "json"@) {
        "json"@
    } else if matches_ci(e, "xml"@) {
        "xml"@
    } else if matches_ci(e, "yaml"@) || matches_ci(e, "yml"@) {
        "yaml"@
    } else if matches_ci(e, "toml"@) {
        "toml"@
    } else if matches_ci(e, "ini"@) || matches_ci(e, "cfg"@) || matches_ci(e, "conf"@) || matches_ci(e, "config"@) {
        "ini"@
    } else if matches_ci(e, "md"@) || matches_ci(e, "markdown"@) {
        "markdown"@
    } else if matches_ci(e, "rst"@) {
        "rst"@
    } else if matches_ci(e, "c"@) {
        "c"@
    } else if matches_ci(e, "cpp"@) || matches_ci(e, "cc"@) || matches_ci(e, "cxx"@) {
        "cpp"@
    } else if matches_ci(e, "h"@) || matches_ci(e, "hpp"@) || matches_ci(e, "hxx"@) {
        "c"@
    } else if matches_ci(e, "java"@) {
        "java"@
    } else if matches_ci(e, "kt"@) {
        "kotlin"@
    } else if matches_ci(e, "scala"@) {
        "scala"@
    } else if matches_ci(e, "go"@) {
        "go"@
    } else if matches_ci(e, "rb"@) {
        "ruby"@
    } else if matches_ci(e, "php"@) {
        "php"@
    } else if matches_ci(e, "sh"@) || matches_ci(e, "bash"@) || matches_ci(e, "zsh"@) || matches_ci(e, "fish"@) {
        "bash"@
    } else if matches_ci(e, "sql"@) {
        "sql"@
    } else if matches_ci(e, "vue"@) {
        "vue"@
    } else if matches_ci(e, "svelte"@) {
        "svelte"@
    } else if matches_ci(e, "dart"@) {
        "dart"@
    } else if matches_ci(e, "swift"@) {
        "swift"@
    } else if matches_ci(e, "r"@) {
        "r"@
    } else if matches_ci(e, "m"@) || matches_ci(e, "mm"@) {
        "objectivec"@
    } else if matches_ci(e, "pl"@) || matches_ci(e, "pm"@) {
        "perl"@
    } else if matches_ci(e, "lua"@) {
        "lua"@
    } else if matches_ci(e, "ps1"@) || matches_ci(e, "psm1"@) || matches_ci(e, "psd1"@) {
        "powershell"@
    } else if matches_ci(e, "tex"@) || matches_ci(e, "latex"@) {
        "latex"@
    } else if matches_ci(e, "csv"@) || matches_ci(e, "tsv"@) {
        "csv"@
    } else {
        "plaintext"@
    }
}

/// The syntax-highlighting label for a file name; purely cosmetic.
pub open spec fn language_of(name: Seq<char>) -> Seq<char> {
    if matches_ci(name, "dockerfile"@) || starts_with_ci(name, "dockerfile."@) {
        "dockerfile"@
    } else if matches_ci(name, "makefile"@) || starts_with_ci(name, "makefile."@) {
        "makefile"@
    } else {
        ext_language(extension_of(name))
    }
}

fn ext_language_str(e: &str) -> (r: String)
    ensures
        r@ == ext_language(e@),
{
    if str_eq_ci(e, "rs") {
        String::from_str("rust")
    } else if str_eq_ci(e, "py") {
        String::from_str("python")
    } else if str_eq_ci(e, "js") || str_eq_ci(e, "mjs") {
        String::from_str("javascript")
    } else if str_eq_ci(e, "ts") {
        String::from_str("typescript")
    } else if str_eq_ci(e, "jsx") {
        String::from_str("javascript")
    } else if str_eq_ci(e, "tsx") {
        String::from_str("typescript")
    } else if str_eq_ci(e, "html") || str_eq_ci(e, "htm") {
        String::from_str("html")
    } else if str_eq_ci(e, "css") {
        String::from_str("css")
    } else if str_eq_ci(e, "scss") {
        String::from_str("scss")
    } else if str_eq_ci(e, "sass") {
        String::from_str("sass")
    } else if str_eq_ci(e, "less") {
        String::from_str("less")
    } else if str_eq_ci(e, "json") {
        String::from_str("json")
    } else if str_eq_ci(e, "xml") {
        String::from_str("xml")
    } else if str_eq_ci(e, "yaml") || str_eq_ci(e, "yml") {
        String::from_str("yaml")
    } else if str_eq_ci(e, "toml") {
        String::from_str("toml")
    } else if str_eq_ci(e, "ini") || str_eq_ci(e, "cfg") || str_eq_ci(e, "conf") || str_eq_ci(e, "config") {
        String::from_str("ini")
    } else if str_eq_ci(e, "md") || str_eq_ci(e, "markdown") {
        String::from_str("markdown")
    } else if str_eq_ci(e, "rst") {
        String::from_str("rst")
    } else if str_eq_ci(e, "c") {
        String::from_str("c")
    } else if str_eq_ci(e, "cpp") || str_eq_ci(e, "cc") || str_eq_ci(e, "cxx") {
        String::from_str("cpp")
    } else if str_eq_ci(e, "h") || str_eq_ci(e, "hpp") || str_eq_ci(e, "hxx") {
        String::from_str("c")
    } else if str_eq_ci(e, "java") {
        String::from_str("java")
    } else if str_eq_ci(e, "kt") {
        String::from_str("kotlin")
    } else if str_eq_ci(e, "scala") {
        String::from_str("scala")
    } else if str_eq_ci(e, "go") {
        String::from_str("go")
    } else if str_eq_ci(e, "rb") {
        String::from_str("ruby")
    } else if str_eq_ci(e, "php") {
        String::from_str("php")
    } else if str_eq_ci(e, "sh") || str_eq_ci(e, "bash") || str_eq_ci(e, "zsh") || str_eq_ci(e, "fish") {
        String::from_str("bash")
    } else if str_eq_ci(e, "sql") {
        String::from_str("sql")
    } else if str_eq_ci(e, "vue") {
        String::from_str("vue")
    } else if str_eq_ci(e, "svelte") {
        String::from_str("svelte")
    } else if str_eq_ci(e, "dart") {
        String::from_str("dart")
    } else if str_eq_ci(e, "swift") {
        String::from_str("swift")
    } else if str_eq_ci(e, "r") {
        String::from_str("r")
    } else if str_eq_ci(e, "m") || str_eq_ci(e, "mm") {
        String::from_str("objectivec")
    } else if str_eq_ci(e, "pl") || str_eq_ci(e, "pm") {
        String::from_str("perl")
    } else if str_eq_ci(e, "lua") {
        String::from_str("lua")
    } else if str_eq_ci(e, "ps1") || str_eq_ci(e, "psm1") || str_eq_ci(e, "psd1") {
        String::from_str("powershell")
    } else if str_eq_ci(e, "tex") || str_eq_ci(e, "latex") {
        String::from_str("latex")
    } else if str_eq_ci(e, "csv") || str_eq_ci(e, "tsv") {
        String::from_str("csv")
    } else {
        String::from_str("plaintext")
    }
}

/// Returns `language_of` the name, used to label previewed sources.
pub fn detect_language(name: &str) -> (r: String)
    ensures
        r@ == language_of(name@),
{
    if str_eq_ci(name, "dockerfile") || str_starts_with_ci(name, "dockerfile.") {
        String::from_str("dockerfile")
    } else if str_eq_ci(name, "makefile") || str_starts_with_ci(name, "makefile.") {
        String::from_str("makefile")
    } else {
        ext_language_str(file_extension(name))
    }
}

} // verus!
