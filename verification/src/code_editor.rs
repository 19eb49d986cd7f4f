//! Source snippets a host can display beside a running simulation: the
//! same example in two languages, and which one is currently shown.
//! Rendering and syntax highlighting belong to the host.

use vstd::prelude::*;

verus! {

/// Which language's snippet is displayed.
#[derive(Clone, Copy, Debug, PartialEq, Eq, Structural, Default)]
pub enum DisplayLanguage {
    C,
    #[default]
    Rust,
}

/// A code snippet in up to two languages.
#[derive(Clone, Debug)]
pub struct Code {
    pub current_display_language: DisplayLanguage,
    pub c_code: Option<String>,
    pub rust_code: Option<String>,
    pub show_code: bool,
}

impl Code {
    /// A snippet that exists only in Rust.
    pub fn new_rust(rust_code: String) -> (r: Code)
        ensures
            r.current_display_language == DisplayLanguage::Rust,
            r.c_code is None,
            (r.rust_code matches Some(c) && c@ == rust_code@),
            r.show_code,
    {
        Code {
            current_display_language: DisplayLanguage::Rust,
            c_code: None,
            rust_code: Some(rust_code),
            show_code: true,
        }
    }

    /// A snippet that exists only in C.
    pub fn new_c(c_code: String) -> (r: Code)
        ensures
            r.current_display_language == DisplayLanguage::C,
            r.rust_code is None,
            (r.c_code matches Some(c) && c@ == c_code@),
            r.show_code,
    {
        Code {
            current_display_language: DisplayLanguage::C,
            c_code: Some(c_code),
            rust_code: None,
            show_code: true,
        }
    }

    /// A snippet in both languages, shown in the default language first.
    pub fn new(rust_code: String, c_code: String) -> (r: Code)
        ensures
            r.current_display_language == DisplayLanguage::Rust,
            (r.rust_code matches Some(c) && c@ == rust_code@),
            (r.c_code matches Some(c) && c@ == c_code@),
            r.show_code,
    {
        Code {
            current_display_language: DisplayLanguage::Rust,
            rust_code: Some(rust_code),
            c_code: Some(c_code),
            show_code: true,
        }
    }

    /// Both languages are available, so the display can switch.
    pub fn both_available(&self) -> (r: bool)
        ensures
            r == (self.c_code is Some && self.rust_code is Some),
    {
        self.c_code.is_some() && self.rust_code.is_some()
    }
}

} // verus!
