use ste_lib::buffer::Cursor;
use ste_lib::config::{Config, Extension, LspConfig, LspServer};
use ste_lib::fs::LocalPath;
use ste_lib::lsp::LspLang;
use ste_lib::theme::{hex_string_to_rgb, parse_modifier, Modifier};
use ste_lib::BufferSource;

#[test]
fn cursor_selection_endpoints() {
    let c = Cursor { head: 7, tail: 3 };
    assert_eq!(c.min(), 3);
    assert_eq!(c.max(), 7);
    assert!(!c.same());
    let c = Cursor { head: 4, tail: 4 };
    assert_eq!(c.min(), 4);
    assert_eq!(c.max(), 4);
    assert!(c.same());
}

#[test]
fn buffer_source_path() {
    assert!(BufferSource::Text.path().is_none());
    let src = BufferSource::File { path: LocalPath::new(String::from("/w/src/main.rs")) };
    let p = src.path().unwrap();
    assert_eq!(p.as_text(), "/w/src/main.rs");
}

#[test]
fn file_name_and_extension() {
    let p = LocalPath::new(String::from("/work/dir/lib.rs"));
    assert_eq!(p.file_name(), "lib.rs");
    assert_eq!(p.extension(), Some(String::from("rs")));

    let p = LocalPath::new(String::from("Cargo.toml"));
    assert_eq!(p.file_name(), "Cargo.toml");
    assert_eq!(p.extension(), Some(String::from("toml")));

    let p = LocalPath::new(String::from("/work/Makefile"));
    assert_eq!(p.file_name(), "Makefile");
    assert_eq!(p.extension(), None);

    // A leading dot is a hidden file, not an extension marker.
    let p = LocalPath::new(String::from("/home/.bashrc"));
    assert_eq!(p.file_name(), ".bashrc");
    assert_eq!(p.extension(), None);
}

fn sample_config() -> Config {
    Config {
        lsp: LspConfig {
            servers: vec![
                LspServer {
                    lang: LspLang::Rust,
                    command: vec![
                        String::from("rustup"),
                        String::from("run"),
                        String::from("nightly"),
                        String::from("rust-analyzer"),
                    ],
                },
                LspServer { lang: LspLang::Python, command: vec![String::from("pylsp")] },
            ],
        },
        extensions: vec![
            Extension {
                file_extension: vec![String::from("rs")],
                file_names: vec![String::from("Cargo.toml")],
                lang: LspLang::Rust,
            },
            Extension {
                file_extension: vec![String::from("py")],
                file_names: vec![String::from("requirements.txt")],
                lang: LspLang::Python,
            },
            Extension {
                file_extension: vec![String::from("json")],
                file_names: vec![],
                lang: LspLang::Json,
            },
        ],
    }
}

#[test]
fn language_lookup_prefers_file_names() {
    let config = sample_config();
    // `Cargo.toml` is named in the Rust mapping, so the `toml` extension
    // never comes into play.
    let p = LocalPath::new(String::from("/w/Cargo.toml"));
    assert_eq!(config.lsp_lang(&p), LspLang::Rust);
    let p = LocalPath::new(String::from("/w/src/main.rs"));
    assert_eq!(config.lsp_lang(&p), LspLang::Rust);
    let p = LocalPath::new(String::from("/w/data.json"));
    assert_eq!(config.lsp_lang(&p), LspLang::Json);
    let p = LocalPath::new(String::from("/w/notes.txt"));
    assert_eq!(config.lsp_lang(&p), LspLang::PlainText);
    let p = LocalPath::new(String::from("/w/README"));
    assert_eq!(config.lsp_lang(&p), LspLang::PlainText);
}

#[test]
fn launch_command_lookup() {
    let config = sample_config();
    let cmd = LspLang::Rust.cmd(&config).unwrap();
    assert_eq!(cmd.len(), 4);
    assert_eq!(cmd[0], "rustup");
    assert_eq!(cmd[3], "rust-analyzer");
    let cmd = LspLang::Python.cmd(&config).unwrap();
    assert_eq!(cmd[0], "pylsp");
    assert!(LspLang::Json.cmd(&config).is_none());
    assert!(LspLang::PlainText.cmd(&config).is_none());
}

#[test]
fn hex_colors_parse_exactly() {
    assert_eq!(hex_string_to_rgb("#ff8000"), Some((255, 128, 0)));
    assert_eq!(hex_string_to_rgb("#FF8000"), Some((255, 128, 0)));
    assert_eq!(hex_string_to_rgb("#000000"), Some((0, 0, 0)));
    assert_eq!(hex_string_to_rgb("#12345"), None);
    assert_eq!(hex_string_to_rgb("123456"), None);
    assert_eq!(hex_string_to_rgb("#12345g"), None);
    assert_eq!(hex_string_to_rgb(""), None);
}

#[test]
fn modifiers_parse_exactly() {
    assert_eq!(parse_modifier("bold"), Some(Modifier::BOLD));
    assert_eq!(parse_modifier("italic"), Some(Modifier::ITALIC));
    assert_eq!(parse_modifier("underline"), Some(Modifier::UNDERLINE));
    assert_eq!(parse_modifier("wavy"), None);
}
