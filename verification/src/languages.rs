//! The languages that the service knows, and the table that finds one by
//! the extension of a file name, by its short name or by its number in an
//! envelope.

use vstd::prelude::*;
use crate::text::str_eq;

verus! {

/// A language as an envelope names it. `Unspecified` asks the server to
/// infer the language from the file name.
#[derive(Clone, Copy, Debug, PartialEq, Eq, Structural)]
pub enum Language {
    Unspecified,
    Agda,
    Bash,
    C,
    Cpp,
    Css,
    Go,
    Html,
    Java,
    JavaScript,
    Json,
    Python,
    Ruby,
    Rust,
    TypeScript,
    Tsx,
}

impl Language {
    /// The number that stands for the language in an envelope.
    pub open spec fn spec_tag(self) -> u8 {
        match self {
            Language::Unspecified => 0,
            Language::Agda => 1,
            Language::Bash => 2,
            Language::C => 3,
            Language::Cpp => 4,
            Language::Css => 5,
            Language::Go => 6,
            Language::Html => 7,
            Language::Java => 8,
            Language::JavaScript => 9,
            Language::Json => 10,
            Language::Python => 11,
            Language::Ruby => 12,
            Language::Rust => 13,
            Language::TypeScript => 14,
            Language::Tsx => 15,
        }
    }

    /// The language that a number stands for, if any.
    pub open spec fn spec_from_tag(tag: u8) -> Option<Language> {
        if tag == 0 {
            Some(Language::Unspecified)
        } else if tag == 1 {
            Some(Language::Agda)
        } else if tag == 2 {
            Some(Language::Bash)
        } else if tag == 3 {
            Some(Language::C)
        } else if tag == 4 {
            Some(Language::Cpp)
        } else if tag == 5 {
            Some(Language::Css)
        } else if tag == 6 {
            Some(Language::Go)
        } else if tag == 7 {
            Some(Language::Html)
        } else if tag == 8 {
            Some(Language::Java)
        } else if tag == 9 {
            Some(Language::JavaScript)
        } else if tag == 10 {
            Some(Language::Json)
        } else if tag == 11 {
            Some(Language::Python)
        } else if tag == 12 {
            Some(Language::Ruby)
        } else if tag == 13 {
            Some(Language::Rust)
        } else if tag == 14 {
            Some(Language::TypeScript)
        } else if tag == 15 {
            Some(Language::Tsx)
        } else {
            None
        }
    }

    /// The short name of the language; `Unspecified` has the empty name.
    pub open spec fn spec_name(self) -> Seq<char> {
        match self {
            Language::Unspecified => ""@,
            Language::Agda => "agda"@,
            Language::Bash => "bash"@,
            Language::C => "c"@,
            Language::Cpp => "cpp"@,
            Language::Css => "css"@,
            Language::Go => "go"@,
            Language::Html => "html"@,
            Language::Java => "java"@,
            Language::JavaScript => "javascript"@,
            Language::Json => "json"@,
            Language::Python => "python"@,
            Language::Ruby => "ruby"@,
            Language::Rust => "rust"@,
            Language::TypeScript => "typescript"@,
            Language::Tsx => "tsx"@,
        }
    }

    pub fn tag(self) -> (tag: u8)
        ensures
            tag == self.spec_tag(),
    {
        match self {
            Language::Unspecified => 0,
            Language::Agda => 1,
            Language::Bash => 2,
            Language::C => 3,
            Language::Cpp => 4,
            Language::Css => 5,
            Language::Go => 6,
            Language::Html => 7,
            Language::Java => 8,
            Language::JavaScript => 9,
            Language::Json => 10,
            Language::Python => 11,
            Language::Ruby => 12,
            Language::Rust => 13,
            Language::TypeScript => 14,
            Language::Tsx => 15,
        }
    }

    pub fn from_tag(tag: u8) -> (language: Option<Language>)
        ensures
            language == Language::spec_from_tag(tag),
    {
        if tag == 0 {
            Some(Language::Unspecified)
        } else if tag == 1 {
            Some(Language::Agda)
        } else if tag == 2 {
            Some(Language::Bash)
        } else if tag == 3 {
            Some(Language::C)
        } else if tag == 4 {
            Some(Language::Cpp)
        } else if tag == 5 {
            Some(Language::Css)
        } else if tag == 6 {
            Some(Language::Go)
        } else if tag == 7 {
            Some(Language::Html)
        } else if tag == 8 {
            Some(Language::Java)
        } else if tag == 9 {
            Some(Language::JavaScript)
        } else if tag == 10 {
            Some(Language::Json)
        } else if tag == 11 {
            Some(Language::Python)
        } else if tag == 12 {
            Some(Language::Ruby)
        } else if tag == 13 {
            Some(Language::Rust)
        } else if tag == 14 {
            Some(Language::TypeScript)
        } else if tag == 15 {
            Some(Language::Tsx)
        } else {
            None
        }
    }

    pub fn name(self) -> (name: &'static str)
        ensures
            name@ == self.spec_name(),
    {
        match self {
            Language::Unspecified => "",
            Language::Agda => "agda",
            Language::Bash => "bash",
            Language::C => "c",
            Language::Cpp => "cpp",
            Language::Css => "css",
            Language::Go => "go",
            Language::Html => "html",
            Language::Java => "java",
            Language::JavaScript => "javascript",
            Language::Json => "json",
            Language::Python => "python",
            Language::Ruby => "ruby",
            Language::Rust => "rust",
            Language::TypeScript => "typescript",
            Language::Tsx => "tsx",
        }
    }

    /// Reading back the number of a language gives the language.
    pub proof fn lemma_tag_round_trip(self)
        ensures
            Language::spec_from_tag(self.spec_tag()) == Some(self),
    {
    }

    /// Every language but `Unspecified` is found by its short name.
    pub proof fn lemma_name_round_trip(self)
        requires
            self != Language::Unspecified,
        ensures
            spec_from_name(self.spec_name()) == Some(self),
    {
        reveal_strlit("agda");
        reveal_strlit("bash");
        reveal_strlit("c");
        reveal_strlit("cpp");
        reveal_strlit("css");
        reveal_strlit("go");
        reveal_strlit("html");
        reveal_strlit("java");
        reveal_strlit("javascript");
        reveal_strlit("json");
        reveal_strlit("python");
        reveal_strlit("ruby");
        reveal_strlit("rust");
        reveal_strlit("typescript");
        reveal_strlit("tsx");
        match self {
            Language::Agda => {
            },
            Language::Bash => {
                assert("bash"@[0] != "agda"@[0]);
            },
            Language::C => {
                assert("c"@.len() != "agda"@.len());
                assert("c"@.len() != "bash"@.len());
            },
            Language::Cpp => {
                assert("cpp"@.len() != "agda"@.len());
                assert("cpp"@.len() != "bash"@.len());
                assert("cpp"@.len() != "c"@.len());
            },
            Language::Css => {
                assert("css"@.len() != "agda"@.len());
                assert("css"@.len() != "bash"@.len());
                assert("css"@.len() != "c"@.len());
                assert("css"@[1] != "cpp"@[1]);
            },
            Language::Go => {
                assert("go"@.len() != "agda"@.len());
                assert("go"@.len() != "bash"@.len());
                assert("go"@.len() != "c"@.len());
                assert("go"@.len() != "cpp"@.len());
                assert("go"@.len() != "css"@.len());
            },
            Language::Html => {
                assert("html"@[0] != "agda"@[0]);
                assert("html"@[0] != "bash"@[0]);
                assert("html"@.len() != "c"@.len());
                assert("html"@.len() != "cpp"@.len());
                assert("html"@.len() != "css"@.len());
                assert("html"@.len() != "go"@.len());
            },
            Language::Java => {
                assert("java"@[0] != "agda"@[0]);
                assert("java"@[0] != "bash"@[0]);
                assert("java"@.len() != "c"@.len());
                assert("java"@.len() != "cpp"@.len());
                assert("java"@.len() != "css"@.len());
                assert("java"@.len() != "go"@.len());
                assert("java"@[0] != "html"@[0]);
            },
            Language::JavaScript => {
                assert("javascript"@.len() != "agda"@.len());
                assert("javascript"@.len() != "bash"@.len());
                assert("javascript"@.len() != "c"@.len());
                assert("javascript"@.len() != "cpp"@.len());
                assert("javascript"@.len() != "css"@.len());
                assert("javascript"@.len() != "go"@.len());
                assert("javascript"@.len() != "html"@.len());
                assert("javascript"@.len() != "java"@.len());
            },
            Language::Json => {
                assert("json"@[0] != "agda"@[0]);
                assert("json"@[0] != "bash"@[0]);
                assert("json"@.len() != "c"@.len());
                assert("json"@.len() != "cpp"@.len());
                assert("json"@.len() != "css"@.len());
                assert("json"@.len() != "go"@.len());
                assert("json"@[0] != "html"@[0]);
                assert("json"@[1] != "java"@[1]);
                assert("json"@.len() != "javascript"@.len());
            },
            Language::Python => {
                assert("python"@.len() != "agda"@.len());
                assert("python"@.len() != "bash"@.len());
                assert("python"@.len() != "c"@.len());
                assert("python"@.len() != "cpp"@.len());
                assert("python"@.len() != "css"@.len());
                assert("python"@.len() != "go"@.len());
                assert("python"@.len() != "html"@.len());
                assert("python"@.len() != "java"@.len());
                assert("python"@.len() != "javascript"@.len());
                assert("python"@.len() != "json"@.len());
            },
            Language::Ruby => {
                assert("ruby"@[0] != "agda"@[0]);
                assert("ruby"@[0] != "bash"@[0]);
                assert("ruby"@.len() != "c"@.len());
                assert("ruby"@.len() != "cpp"@.len());
                assert("ruby"@.len() != "css"@.len());
                assert("ruby"@.len() != "go"@.len());
                assert("ruby"@[0] != "html"@[0]);
                assert("ruby"@[0] != "java"@[0]);
                assert("ruby"@.len() != "javascript"@.len());
                assert("ruby"@[0] != "json"@[0]);
                assert("ruby"@.len() != "python"@.len());
            },
            Language::Rust => {
                assert("rust"@[0] != "agda"@[0]);
                assert("rust"@[0] != "bash"@[0]);
                assert("rust"@.len() != "c"@.len());
                assert("rust"@.len() != "cpp"@.len());
                assert("rust"@.len() != "css"@.len());
                assert("rust"@.len() != "go"@.len());
                assert("rust"@[0] != "html"@[0]);
                assert("rust"@[0] != "java"@[0]);
                assert("rust"@.len() != "javascript"@.len());
                assert("rust"@[0] != "json"@[0]);
                assert("rust"@.len() != "python"@.len());
                assert("rust"@[2] != "ruby"@[2]);
            },
            Language::TypeScript => {
                assert("typescript"@.len() != "agda"@.len());
                assert("typescript"@.len() != "bash"@.len());
                assert("typescript"@.len() != "c"@.len());
                assert("typescript"@.len() != "cpp"@.len());
                assert("typescript"@.len() != "css"@.len());
                assert("typescript"@.len() != "go"@.len());
                assert("typescript"@.len() != "html"@.len());
                assert("typescript"@.len() != "java"@.len());
                assert("typescript"@[0] != "javascript"@[0]);
                assert("typescript"@.len() != "json"@.len());
                assert("typescript"@.len() != "python"@.len());
                assert("typescript"@.len() != "ruby"@.len());
                assert("typescript"@.len() != "rust"@.len());
            },
            Language::Tsx => {
                assert("tsx"@.len() != "agda"@.len());
                assert("tsx"@.len() != "bash"@.len());
                assert("tsx"@.len() != "c"@.len());
                assert("tsx"@[0] != "cpp"@[0]);
                assert("tsx"@[0] != "css"@[0]);
                assert("tsx"@.len() != "go"@.len());
                assert("tsx"@.len() != "html"@.len());
                assert("tsx"@.len() != "java"@.len());
                assert("tsx"@.len() != "javascript"@.len());
                assert("tsx"@.len() != "json"@.len());
                assert("tsx"@.len() != "python"@.len());
                assert("tsx"@.len() != "ruby"@.len());
                assert("tsx"@.len() != "rust"@.len());
                assert("tsx"@.len() != "typescript"@.len());
            },
            Language::Unspecified => {},
        }
    }
}

impl Default for Language {
    fn default() -> (language: Language)
        ensures
            language == Language::Unspecified,
    {
        Language::Unspecified
    }
}

/// The language registered for a file name extension (the extension comes
/// without its dot). `Unspecified` is never registered.
pub open spec fn spec_from_extension(extension: Seq<char>) -> Option<Language> {
    if extension == "agda"@ || extension == "lagda"@ {
        Some(Language::Agda)
    } else if extension == "sh"@ || extension == "bash"@ {
        Some(Language::Bash)
    } else if extension == "c"@ || extension == "h"@ {
        Some(Language::C)
    } else if extension == "cpp"@ || extension == "cc"@ || extension == "cxx"@ || extension
        == "hpp"@ || extension == "hxx"@ || extension == "hh"@ {
        Some(Language::Cpp)
    } else if extension == "css"@ {
        Some(Language::Css)
    } else if extension == "go"@ {
        Some(Language::Go)
    } else if extension == "html"@ || extension == "htm"@ {
        Some(Language::Html)
    } else if extension == "java"@ {
        Some(Language::Java)
    } else if extension == "js"@ || extension == "mjs"@ || extension == "cjs"@ {
        Some(Language::JavaScript)
    } else if extension == "json"@ {
        Some(Language::Json)
    } else if extension == "py"@ || extension == "pyw"@ {
        Some(Language::Python)
    } else if extension == "rb"@ {
        Some(Language::Ruby)
    } else if extension == "rs"@ {
        Some(Language::Rust)
    } else if extension == "ts"@ {
        Some(Language::TypeScript)
    } else if extension == "tsx"@ {
        Some(Language::Tsx)
    } else {
        None
    }
}

/// The language registered under a short name.
pub open spec fn spec_from_name(name: Seq<char>) -> Option<Language> {
    if name == "agda"@ {
        Some(Language::Agda)
    } else if name == "bash"@ {
        Some(Language::Bash)
    } else if name == "c"@ {
        Some(Language::C)
    } else if name == "cpp"@ {
        Some(Language::Cpp)
    } else if name == "css"@ {
        Some(Language::Css)
    } else if name == "go"@ {
        Some(Language::Go)
    } else if name == "html"@ {
        Some(Language::Html)
    } else if name == "java"@ {
        Some(Language::Java)
    } else if name == "javascript"@ {
        Some(Language::JavaScript)
    } else if name == "json"@ {
        Some(Language::Json)
    } else if name == "python"@ {
        Some(Language::Python)
    } else if name == "ruby"@ {
        Some(Language::Ruby)
    } else if name == "rust"@ {
        Some(Language::Rust)
    } else if name == "typescript"@ {
        Some(Language::TypeScript)
    } else if name == "tsx"@ {
        Some(Language::Tsx)
    } else {
        None
    }
}

/// The extension of a path as the standard library's `Path::extension`
/// reads it: the part of the final component after its last dot, if that
/// component has a dot that is not its first character.
pub uninterp spec fn path_extension(path: Seq<char>) -> Option<Seq<char>>;

/// The language that a path's extension selects.
pub open spec fn spec_from_path(path: Seq<char>) -> Option<Language> {
    match path_extension(path) {
        Some(extension) => spec_from_extension(extension),
        None => None,
    }
}

/// Calls `std::path::Path::extension` on the path and hands the extension
/// back as text; the contract only gives that result its name.
#[verifier::external_body]
fn extension_of(path: &str) -> (extension: Option<&str>)
    ensures
        path_extension(path@) == match extension {
            Some(e) => Some(e@),
            None => None,
        },
{
    std::path::Path::new(path).extension().and_then(|e| e.to_str())
}

pub fn from_extension(extension: &str) -> (language: Option<Language>)
    ensures
        language == spec_from_extension(extension@),
{
    if str_eq(extension, "agda") || str_eq(extension, "lagda") {
        Some(Language::Agda)
    } else if str_eq(extension, "sh") || str_eq(extension, "bash") {
        Some(Language::Bash)
    } else if str_eq(extension, "c") || str_eq(extension, "h") {
        Some(Language::C)
    } else if str_eq(extension, "cpp") || str_eq(extension, "cc") || str_eq(extension, "cxx")
        || str_eq(extension, "hpp") || str_eq(extension, "hxx") || str_eq(extension, "hh") {
        Some(Language::Cpp)
    } else if str_eq(extension, "css") {
        Some(Language::Css)
    } else if str_eq(extension, "go") {
        Some(Language::Go)
    } else if str_eq(extension, "html") || str_eq(extension, "htm") {
        Some(Language::Html)
    } else if str_eq(extension, "java") {
        Some(Language::Java)
    } else if str_eq(extension, "js") || str_eq(extension, "mjs") || str_eq(extension, "cjs") {
        Some(Language::JavaScript)
    } else if str_eq(extension, "json") {
        Some(Language::Json)
    } else if str_eq(extension, "py") || str_eq(extension, "pyw") {
        Some(Language::Python)
    } else if str_eq(extension, "rb") {
        Some(Language::Ruby)
    } else if str_eq(extension, "rs") {
        Some(Language::Rust)
    } else if str_eq(extension, "ts") {
        Some(Language::TypeScript)
    } else if str_eq(extension, "tsx") {
        Some(Language::Tsx)
    } else {
        None
    }
}

pub fn from_name(name: &str) -> (language: Option<Language>)
    ensures
        language == spec_from_name(name@),
{
    if str_eq(name, "agda") {
        Some(Language::Agda)
    } else if str_eq(name, "bash") {
        Some(Language::Bash)
    } else if str_eq(name, "c") {
        Some(Language::C)
    } else if str_eq(name, "cpp") {
        Some(Language::Cpp)
    } else if str_eq(name, "css") {
        Some(Language::Css)
    } else if str_eq(name, "go") {
        Some(Language::Go)
    } else if str_eq(name, "html") {
        Some(Language::Html)
    } else if str_eq(name, "java") {
        Some(Language::Java)
    } else if str_eq(name, "javascript") {
        Some(Language::JavaScript)
    } else if str_eq(name, "json") {
        Some(Language::Json)
    } else if str_eq(name, "python") {
        Some(Language::Python)
    } else if str_eq(name, "ruby") {
        Some(Language::Ruby)
    } else if str_eq(name, "rust") {
        Some(Language::Rust)
    } else if str_eq(name, "typescript") {
        Some(Language::TypeScript)
    } else if str_eq(name, "tsx") {
        Some(Language::Tsx)
    } else {
        None
    }
}

pub fn from_path(path: &str) -> (language: Option<Language>)
    ensures
        language == spec_from_path(path@),
{
    match extension_of(path) {
        Some(extension) => from_extension(extension),
        None => None,
    }
}

} // verus!
