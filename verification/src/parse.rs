//! The parser-facing contracts: the per-file parse result, node-id
//! generation, the language registry, and the extension-to-language rules
//! that file scanning applies.

use vstd::prelude::*;

use crate::graph::{Edge, Node};
use crate::resolver::CallSite;
use crate::text::{chars_replace, chars_string, dec_digits, replace_char, str_chars, str_eq,
    u64_string};

verus! {

/// What parsing one file yields: its entities, their relationships, and the
/// call sites awaiting resolution.
#[derive(Debug, Clone)]
pub struct ParseResult {
    pub nodes: Vec<Node>,
    pub edges: Vec<Edge>,
    pub call_sites: Option<Vec<CallSite>>,
}

/// A source file picked up by scanning: its path and the language its
/// extension maps to.
#[derive(Debug, Clone)]
pub struct FileInfo {
    pub path: String,
    pub language: String,
    pub extension: String,
}

/// A language a parser exists for.
#[derive(Debug, Clone, Copy, PartialEq, Eq, Structural)]
pub enum Language {
    Python,
    TypeScript,
    JavaScript,
    Cpp,
    Rust,
    Java,
    Go,
    CSharp,
}

/// The node id `path:type:name:line`, with `/` and `\` in the path replaced
/// by `_`.
pub open spec fn node_id_of(
    file_path: Seq<char>,
    node_type: Seq<char>,
    name: Seq<char>,
    line: nat,
) -> Seq<char> {
    replace_char(replace_char(file_path, '/', '_'), '\\', '_') + ":"@ + node_type + ":"@ + name
        + ":"@ + dec_digits(line)
}

/// Builds a node id, as `node_id_of` describes.
pub fn generate_node_id(file_path: &str, node_type: &str, name: &str, line: usize) -> (r: String)
    ensures
        r@ == node_id_of(file_path@, node_type@, name@, line as nat),
{
    let pc = str_chars(file_path);
    let once = chars_replace(&pc, '/', '_');
    let twice = chars_replace(&once, '\\', '_');
    let mut s = chars_string(&twice);
    s.append(":");
    s.append(node_type);
    s.append(":");
    s.append(name);
    s.append(":");
    let digits = u64_string(line as u64);
    s.append(digits.as_str());
    s
}

/// The language a registry key selects, exactly as the parser registry
/// matches it.
pub open spec fn language_of(key: Seq<char>) -> Option<Language> {
    if key == "python"@ {
        Some(Language::Python)
    } else if key == "typescript"@ {
        Some(Language::TypeScript)
    } else if key == "javascript"@ {
        Some(Language::JavaScript)
    } else if key == "cpp"@ || key == "c++"@ {
        Some(Language::Cpp)
    } else if key == "rust"@ {
        Some(Language::Rust)
    } else if key == "java"@ {
        Some(Language::Java)
    } else if key == "go"@ {
        Some(Language::Go)
    } else if key == "csharp"@ || key == "c#"@ {
        Some(Language::CSharp)
    } else {
        None
    }
}

/// The error reported for a language key no parser is registered under.
#[derive(Debug)]
pub struct UnsupportedLanguage {
    pub language: String,
}

/// Selects per-language parsers by a runtime string key.
pub struct ParserFactory;

impl ParserFactory {
    pub fn new() -> (r: Self)
        ensures
            true,
    {
        Self
    }

    /// The language registered under `language`, or an error naming the key:
    /// `Ok` exactly on the keys `language_of` accepts.
    pub fn get_parser(&self, language: &str) -> (r: Result<Language, UnsupportedLanguage>)
        ensures
            match r {
                Ok(l) => language_of(language@) == Some(l),
                Err(e) => language_of(language@) is None && e.language@ == language@,
            },
    {
        if str_eq(language, "python") {
            Ok(Language::Python)
        } else if str_eq(language, "typescript") {
            Ok(Language::TypeScript)
        } else if str_eq(language, "javascript") {
            Ok(Language::JavaScript)
        } else if str_eq(language, "cpp") || str_eq(language, "c++") {
            Ok(Language::Cpp)
        } else if str_eq(language, "rust") {
            Ok(Language::Rust)
        } else if str_eq(language, "java") {
            Ok(Language::Java)
        } else if str_eq(language, "go") {
            Ok(Language::Go)
        } else if str_eq(language, "csharp") || str_eq(language, "c#") {
            Ok(Language::CSharp)
        } else {
            let chars = str_chars(language);
            Err(UnsupportedLanguage { language: chars_string(&chars) })
        }
    }
}

/// The language name a listed language assigns to a file extension, if any:
/// the extension table the scanner is built from.
pub open spec fn extension_language(language: Seq<char>, ext: Seq<char>) -> Option<Seq<char>> {
    if language == "python"@ && (ext == "py"@ || ext == "pyi"@ || ext == "pyw"@) {
        Some("python"@)
    } else if language == "typescript"@ && (ext == "ts"@ || ext == "tsx"@) {
        Some("typescript"@)
    } else if language == "javascript"@ && (ext == "js"@ || ext == "jsx"@ || ext == "mjs"@) {
        Some("javascript"@)
    } else if language == "rust"@ && ext == "rs"@ {
        Some("rust"@)
    } else if language == "go"@ && ext == "go"@ {
        Some("go"@)
    } else if language == "java"@ && ext == "java"@ {
        Some("java"@)
    } else if (language == "cpp"@ || language == "c++"@) && (ext == "cpp"@ || ext == "cxx"@ || ext
        == "cc"@ || ext == "hpp"@) {
        Some("cpp"@)
    } else if language == "c"@ && (ext == "c"@ || ext == "h"@) {
        Some("c"@)
    } else if (language == "csharp"@ || language == "c#"@) && ext == "cs"@ {
        Some("csharp"@)
    } else {
        None
    }
}

/// The language name the first listed language starting at `i` assigns to
/// `ext`, if any.
pub open spec fn scan_extension(langs: Seq<Seq<char>>, ext: Seq<char>, i: int) -> Option<Seq<char>>
    decreases langs.len() - i,
{
    if i < 0 || i >= langs.len() {
        None
    } else {
        match extension_language(langs[i], ext) {
            Some(l) => Some(l),
            None => scan_extension(langs, ext, i + 1),
        }
    }
}

fn extension_language_exec(language: &str, ext: &str) -> (r: Option<String>)
    ensures
        (match r {
            Some(l) => Some(l@),
            None => None::<Seq<char>>,
        }) == extension_language(language@, ext@),
{
    if str_eq(language, "python") && (str_eq(ext, "py") || str_eq(ext, "pyi") || str_eq(
        ext,
        "pyw",
    )) {
        let mut s = String::new();
        s.append("python");
        Some(s)
    } else if str_eq(language, "typescript") && (str_eq(ext, "ts") || str_eq(ext, "tsx")) {
        let mut s = String::new();
        s.append("typescript");
        Some(s)
    } else if str_eq(language, "javascript") && (str_eq(ext, "js") || str_eq(ext, "jsx") || str_eq(
        ext,
        "mjs",
    )) {
        let mut s = String::new();
        s.append("javascript");
        Some(s)
    } else if str_eq(language, "rust") && str_eq(ext, "rs") {
        let mut s = String::new();
        s.append("rust");
        Some(s)
    } else if str_eq(language, "go") && str_eq(ext, "go") {
        let mut s = String::new();
        s.append("go");
        Some(s)
    } else if str_eq(language, "java") && str_eq(ext, "java") {
        let mut s = String::new();
        s.append("java");
        Some(s)
    } else if (str_eq(language, "cpp") || str_eq(language, "c++")) && (str_eq(ext, "cpp") || str_eq(
        ext,
        "cxx",
    ) || str_eq(ext, "cc") || str_eq(ext, "hpp")) {
        let mut s = String::new();
        s.append("cpp");
        Some(s)
    } else if str_eq(language, "c") && (str_eq(ext, "c") || str_eq(ext, "h")) {
        let mut s = String::new();
        s.append("c");
        Some(s)
    } else if (str_eq(language, "csharp") || str_eq(language, "c#")) && str_eq(ext, "cs") {
        let mut s = String::new();
        s.append("csharp");
        Some(s)
    } else {
        None
    }
}

/// The language the listed languages assign to a file extension: what
/// directory scanning keeps a file for, as `scan_extension` describes.
pub fn language_for_extension(languages: &Vec<String>, extension: &str) -> (r: Option<String>)
    ensures
        (match r {
            Some(l) => Some(l@),
            None => None::<Seq<char>>,
        }) == scan_extension(
            languages@.map_values(|l: String| l@),
            extension@,
            0,
        ),
{
    let ghost langs = languages@.map_values(|l: String| l@);
    let mut i: usize = 0;
    while i < languages.len()
        invariant
            langs == languages@.map_values(|l: String| l@),
            langs.len() == languages@.len(),
            i <= langs.len(),
            scan_extension(langs, extension@, i as int) == scan_extension(langs, extension@, 0),
        decreases langs.len() - i,
    {
        proof {
            assert(langs[i as int] == languages@[i as int]@);
        }
        match extension_language_exec(languages[i].as_str(), extension) {
            Some(l) => {
                return Some(l);
            },
            None => {},
        }
        i = i + 1;
    }
    None
}

} // verus!
