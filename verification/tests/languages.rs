use daylight::languages::{from_extension, from_name, from_path, Language};

const ALL: [Language; 16] = [
    Language::Unspecified,
    Language::Agda,
    Language::Bash,
    Language::C,
    Language::Cpp,
    Language::Css,
    Language::Go,
    Language::Html,
    Language::Java,
    Language::JavaScript,
    Language::Json,
    Language::Python,
    Language::Ruby,
    Language::Rust,
    Language::TypeScript,
    Language::Tsx,
];

#[test]
fn every_language_has_its_number() {
    for (number, language) in ALL.iter().enumerate() {
        assert_eq!(language.tag() as usize, number);
        assert_eq!(Language::from_tag(number as u8), Some(*language));
    }
    assert_eq!(Language::from_tag(16), None);
    assert_eq!(Language::from_tag(255), None);
    assert_eq!(Language::default(), Language::Unspecified);
}

#[test]
fn every_extension_finds_its_language() {
    let table: [(&str, Language); 26] = [
        ("agda", Language::Agda),
        ("lagda", Language::Agda),
        ("sh", Language::Bash),
        ("bash", Language::Bash),
        ("c", Language::C),
        ("h", Language::C),
        ("cpp", Language::Cpp),
        ("cc", Language::Cpp),
        ("cxx", Language::Cpp),
        ("hpp", Language::Cpp),
        ("hxx", Language::Cpp),
        ("hh", Language::Cpp),
        ("css", Language::Css),
        ("go", Language::Go),
        ("html", Language::Html),
        ("htm", Language::Html),
        ("java", Language::Java),
        ("js", Language::JavaScript),
        ("mjs", Language::JavaScript),
        ("cjs", Language::JavaScript),
        ("json", Language::Json),
        ("py", Language::Python),
        ("pyw", Language::Python),
        ("rb", Language::Ruby),
        ("rs", Language::Rust),
        ("ts", Language::TypeScript),
    ];
    for (extension, language) in table {
        assert_eq!(from_extension(extension), Some(language), "{}", extension);
    }
    assert_eq!(from_extension("tsx"), Some(Language::Tsx));
    assert_eq!(from_extension("unknownext"), None);
    assert_eq!(from_extension(""), None);
    assert_eq!(from_extension("C"), None);
    assert_eq!(from_extension(".c"), None);
}

#[test]
fn every_name_finds_its_language() {
    for language in &ALL[1..] {
        assert_eq!(from_name(language.name()), Some(*language));
    }
    assert_eq!(Language::C.name(), "c");
    assert_eq!(Language::JavaScript.name(), "javascript");
    assert_eq!(Language::Unspecified.name(), "");
    assert_eq!(from_name(""), None);
    assert_eq!(from_name("haskell"), None);
    assert_eq!(from_name("sh"), None);
}

#[test]
fn a_path_finds_its_language_by_its_extension() {
    assert_eq!(from_path("t.c"), Some(Language::C));
    assert_eq!(from_path("src/main.rs"), Some(Language::Rust));
    assert_eq!(from_path("a.b/archive.tar.json"), Some(Language::Json));
    assert_eq!(from_path("s.sh"), Some(Language::Bash));
    assert_eq!(from_path("x.unknownext"), None);
    assert_eq!(from_path("Makefile"), None);
    assert_eq!(from_path(""), None);
    // A leading dot starts a hidden file, not an extension.
    assert_eq!(from_path(".c"), None);
    assert_eq!(from_path("dir.c/file"), None);
}
