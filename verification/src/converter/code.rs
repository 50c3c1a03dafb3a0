//! Source code files as fenced Markdown code blocks.

use vstd::prelude::*;

use crate::converter::{
    decode_text, decode_text_spec, decoded_view, ConversionOptions, ConversionResult,
    ConversionWarning, Converter,
};
use crate::error::ConvertError;
use crate::text::{chars_of, eq_str, push_all, push_str, string_from_chars, trim_end, trim_end_ws};

verus! {

broadcast use vstd::string::group_string_axioms;

/// Converts source code files to fenced code blocks.
pub struct CodeConverter;

/// The fenced-code language of a file extension, if it is a known one.
pub open spec fn language_of(e: Seq<char>) -> Option<&'static str> {
    if e == "c"@ || e == "h"@ {
        Some("c")
    } else if e == "cpp"@ || e == "cc"@ || e == "cxx"@ || e == "hpp"@ || e == "hxx"@ || e == "hh"@ {
        Some("cpp")
    } else if e == "py"@ || e == "pyw"@ {
        Some("python")
    } else if e == "js"@ || e == "mjs"@ || e == "cjs"@ {
        Some("javascript")
    } else if e == "jsx"@ {
        Some("jsx")
    } else if e == "ts"@ || e == "mts"@ || e == "cts"@ {
        Some("typescript")
    } else if e == "tsx"@ {
        Some("tsx")
    } else if e == "rs"@ {
        Some("rust")
    } else if e == "go"@ {
        Some("go")
    } else if e == "java"@ {
        Some("java")
    } else if e == "kt"@ || e == "kts"@ {
        Some("kotlin")
    } else if e == "rb"@ {
        Some("ruby")
    } else if e == "swift"@ {
        Some("swift")
    } else if e == "cs"@ {
        Some("csharp")
    } else if e == "php"@ {
        Some("php")
    } else if e == "sh"@ || e == "bash"@ || e == "zsh"@ || e == "fish"@ {
        Some("bash")
    } else if e == "pl"@ || e == "pm"@ {
        Some("perl")
    } else if e == "lua"@ {
        Some("lua")
    } else if e == "r"@ {
        Some("r")
    } else if e == "scala"@ {
        Some("scala")
    } else if e == "dart"@ {
        Some("dart")
    } else if e == "ex"@ || e == "exs"@ {
        Some("elixir")
    } else if e == "erl"@ {
        Some("erlang")
    } else if e == "hs"@ {
        Some("haskell")
    } else if e == "ml"@ || e == "mli"@ {
        Some("ocaml")
    } else if e == "sql"@ {
        Some("sql")
    } else if e == "m"@ || e == "mm"@ {
        Some("objectivec")
    } else if e == "zig"@ {
        Some("zig")
    } else if e == "nim"@ {
        Some("nim")
    } else if e == "v"@ {
        Some("v")
    } else if e == "groovy"@ {
        Some("groovy")
    } else if e == "ps1"@ {
        Some("powershell")
    } else if e == "bat"@ || e == "cmd"@ {
        Some("batch")
    } else {
        None
    }
}

/// The language tag of a file extension (see [`language_of`]).
pub fn language_for_extension(ext: &str) -> (r: Option<&'static str>)
    ensures
        r == language_of(ext@),
{
    let c = chars_of(ext);
    let e = c.as_slice();
    if eq_str(e, "c") || eq_str(e, "h") {
        Some("c")
    } else if eq_str(e, "cpp") || eq_str(e, "cc") || eq_str(e, "cxx") || eq_str(e, "hpp") || eq_str(e, "hxx") || eq_str(e, "hh") {
        Some("cpp")
    } else if eq_str(e, "py") || eq_str(e, "pyw") {
        Some("python")
    } else if eq_str(e, "js") || eq_str(e, "mjs") || eq_str(e, "cjs") {
        Some("javascript")
    } else if eq_str(e, "jsx") {
        Some("jsx")
    } else if eq_str(e, "ts") || eq_str(e, "mts") || eq_str(e, "cts") {
        Some("typescript")
    } else if eq_str(e, "tsx") {
        Some("tsx")
    } else if eq_str(e, "rs") {
        Some("rust")
    } else if eq_str(e, "go") {
        Some("go")
    } else if eq_str(e, "java") {
        Some("java")
    } else if eq_str(e, "kt") || eq_str(e, "kts") {
        Some("kotlin")
    } else if eq_str(e, "rb") {
        Some("ruby")
    } else if eq_str(e, "swift") {
        Some("swift")
    } else if eq_str(e, "cs") {
        Some("csharp")
    } else if eq_str(e, "php") {
        Some("php")
    } else if eq_str(e, "sh") || eq_str(e, "bash") || eq_str(e, "zsh") || eq_str(e, "fish") {
        Some("bash")
    } else if eq_str(e, "pl") || eq_str(e, "pm") {
        Some("perl")
    } else if eq_str(e, "lua") {
        Some("lua")
    } else if eq_str(e, "r") {
        Some("r")
    } else if eq_str(e, "scala") {
        Some("scala")
    } else if eq_str(e, "dart") {
        Some("dart")
    } else if eq_str(e, "ex") || eq_str(e, "exs") {
        Some("elixir")
    } else if eq_str(e, "erl") {
        Some("erlang")
    } else if eq_str(e, "hs") {
        Some("haskell")
    } else if eq_str(e, "ml") || eq_str(e, "mli") {
        Some("ocaml")
    } else if eq_str(e, "sql") {
        Some("sql")
    } else if eq_str(e, "m") || eq_str(e, "mm") {
        Some("objectivec")
    } else if eq_str(e, "zig") {
        Some("zig")
    } else if eq_str(e, "nim") {
        Some("nim")
    } else if eq_str(e, "v") {
        Some("v")
    } else if eq_str(e, "groovy") {
        Some("groovy")
    } else if eq_str(e, "ps1") {
        Some("powershell")
    } else if eq_str(e, "bat") || eq_str(e, "cmd") {
        Some("batch")
    } else {
        None
    }
}

/// The extensions a code file may have.
pub open spec fn code_extensions() -> Seq<&'static str> {
    seq!["c", "h", "cpp", "cc", "cxx", "hpp", "hxx", "hh", "py", "pyw", "js", "mjs", "cjs", "jsx", "ts", "mts", "cts", "tsx", "rs", "go", "java", "kt", "kts", "rb", "swift", "cs", "php", "sh", "bash", "zsh", "fish", "pl", "pm", "lua", "r", "scala", "dart", "ex", "exs", "erl", "hs", "ml", "mli", "sql", "m", "mm", "zig", "nim", "v", "groovy", "ps1", "bat", "cmd"]
}

/// The fenced block of `text` tagged `language`: its trailing whitespace
/// removed, between a ```` ```language ```` line and a closing fence.
pub open spec fn fenced(language: Seq<char>, text: Seq<char>) -> Seq<char> {
    "```"@ + language + seq!['\n'] + trim_end_ws(text) + "\n```\n"@
}

impl CodeConverter {
    /// Converts code with a known file extension: the decoded text (see
    /// [`decode_text_spec`]) in a fenced block tagged with the extension's
    /// language, or `code` for an unknown one; a decoding warning when the
    /// text was not UTF-8.
    pub fn convert_with_extension(
        &self,
        data: &[u8],
        extension: &str,
        _options: &ConversionOptions,
    ) -> (r: Result<ConversionResult, ConvertError>)
        ensures
            r matches Ok(res) && res.markdown@ == fenced(
                match language_of(extension@) {
                    Some(l) => l@,
                    None => "code"@,
                },
                decode_text_spec(data@).0,
            ) && res.plain_text@.len() == 0 && res.title is None && res.images@.len() == 0 && (
            match decode_text_spec(data@).1 {
                Some(w) => res.warnings@.len() == 1 && res.warnings@[0].code == w.0
                    && res.warnings@[0].message@ == w.1 && res.warnings@[0].location is None,
                None => res.warnings@.len() == 0,
            }),
    {
        let (text, w) = decode_text(data);
        let mut warnings: Vec<ConversionWarning> = Vec::new();
        match w {
            Some(w) => {
                warnings.push(w);
            },
            None => {},
        }
        let language = match language_for_extension(extension) {
            Some(l) => l,
            None => "code",
        };
        let mut md: Vec<char> = Vec::new();
        push_str(&mut md, "```");
        push_str(&mut md, language);
        md.push('\n');
        let tc = chars_of(text.as_str());
        let content = trim_end(tc.as_slice());
        push_all(&mut md, content.as_slice());
        push_str(&mut md, "\n```\n");
        let mut result = ConversionResult::default();
        result.markdown = string_from_chars(md.as_slice());
        result.warnings = warnings;
        Ok(result)
    }
}

impl Converter for CodeConverter {
    open spec fn extensions(&self) -> Seq<&'static str> {
        code_extensions()
    }

    fn supported_extensions(&self) -> (r: Vec<&'static str>) {
        let v = vec!["c", "h", "cpp", "cc", "cxx", "hpp", "hxx", "hh", "py", "pyw", "js", "mjs", "cjs", "jsx", "ts", "mts", "cts", "tsx", "rs", "go", "java", "kt", "kts", "rb", "swift", "cs", "php", "sh", "bash", "zsh", "fish", "pl", "pm", "lua", "r", "scala", "dart", "ex", "exs", "erl", "hs", "ml", "mli", "sql", "m", "mm", "zig", "nim", "v", "groovy", "ps1", "bat", "cmd"];
        assert(v@ =~= code_extensions());
        v
    }

    fn convert(&self, data: &[u8], options: &ConversionOptions) -> (r: Result<
        ConversionResult,
        ConvertError,
    >)
        ensures
            r matches Ok(res) && res.markdown@ == fenced(
                match language_of("code"@) {
                    Some(l) => l@,
                    None => "code"@,
                },
                decode_text_spec(data@).0,
            ) && res.plain_text@.len() == 0 && res.title is None && res.images@.len() == 0 && (
            match decode_text_spec(data@).1 {
                Some(w) => res.warnings@.len() == 1 && res.warnings@[0].code == w.0
                    && res.warnings@[0].message@ == w.1 && res.warnings@[0].location is None,
                None => res.warnings@.len() == 0,
            }),
    {
        self.convert_with_extension(data, "code", options)
    }
}

proof fn lemma_language_rows_0()
    ensures
        language_of("c"@) matches Some(l) && l@ == "c"@,
        language_of("h"@) matches Some(l) && l@ == "c"@,
        language_of("cpp"@) matches Some(l) && l@ == "cpp"@,
        language_of("cc"@) matches Some(l) && l@ == "cpp"@,
        language_of("cxx"@) matches Some(l) && l@ == "cpp"@,
        language_of("hpp"@) matches Some(l) && l@ == "cpp"@,
        language_of("hxx"@) matches Some(l) && l@ == "cpp"@,
        language_of("hh"@) matches Some(l) && l@ == "cpp"@,
        language_of("py"@) matches Some(l) && l@ == "python"@,
        language_of("pyw"@) matches Some(l) && l@ == "python"@,
        language_of("js"@) matches Some(l) && l@ == "javascript"@,
        language_of("mjs"@) matches Some(l) && l@ == "javascript"@,
        language_of("cjs"@) matches Some(l) && l@ == "javascript"@,
        language_of("jsx"@) matches Some(l) && l@ == "jsx"@,
{
    reveal_strlit("c");
    assert("c"@.len() == 1);
    reveal_strlit("cc");
    assert("cc"@.len() == 2);
    reveal_strlit("cjs");
    assert("cjs"@.len() == 3);
    reveal_strlit("cpp");
    assert("cpp"@.len() == 3);
    reveal_strlit("cxx");
    assert("cxx"@.len() == 3);
    reveal_strlit("h");
    assert("h"@.len() == 1);
    reveal_strlit("hh");
    assert("hh"@.len() == 2);
    reveal_strlit("hpp");
    assert("hpp"@.len() == 3);
    reveal_strlit("hxx");
    assert("hxx"@.len() == 3);
    reveal_strlit("javascript");
    assert("javascript"@.len() == 10);
    reveal_strlit("js");
    assert("js"@.len() == 2);
    reveal_strlit("jsx");
    assert("jsx"@.len() == 3);
    reveal_strlit("mjs");
    assert("mjs"@.len() == 3);
    reveal_strlit("py");
    assert("py"@.len() == 2);
    reveal_strlit("python");
    assert("python"@.len() == 6);
    reveal_strlit("pyw");
    assert("pyw"@.len() == 3);
    assert("h"@[0] != "c"@[0]);
    assert("cxx"@[1] != "cpp"@[1]);
    assert("hpp"@[0] != "cpp"@[0]);
    assert("hpp"@[0] != "cxx"@[0]);
    assert("hxx"@[0] != "cpp"@[0]);
    assert("hxx"@[0] != "cxx"@[0]);
    assert("hxx"@[1] != "hpp"@[1]);
    assert("hh"@[0] != "cc"@[0]);
    assert("py"@[0] != "cc"@[0]);
    assert("py"@[0] != "hh"@[0]);
    assert("pyw"@[0] != "cpp"@[0]);
    assert("pyw"@[0] != "cxx"@[0]);
    assert("pyw"@[0] != "hpp"@[0]);
    assert("pyw"@[0] != "hxx"@[0]);
    assert("js"@[0] != "cc"@[0]);
    assert("js"@[0] != "hh"@[0]);
    assert("js"@[0] != "py"@[0]);
    assert("mjs"@[0] != "cpp"@[0]);
    assert("mjs"@[0] != "cxx"@[0]);
    assert("mjs"@[0] != "hpp"@[0]);
    assert("mjs"@[0] != "hxx"@[0]);
    assert("mjs"@[0] != "pyw"@[0]);
    assert("cjs"@[1] != "cpp"@[1]);
    assert("cjs"@[1] != "cxx"@[1]);
    assert("cjs"@[0] != "hpp"@[0]);
    assert("cjs"@[0] != "hxx"@[0]);
    assert("cjs"@[0] != "pyw"@[0]);
    assert("cjs"@[0] != "mjs"@[0]);
    assert("jsx"@[0] != "cpp"@[0]);
    assert("jsx"@[0] != "cxx"@[0]);
    assert("jsx"@[0] != "hpp"@[0]);
    assert("jsx"@[0] != "hxx"@[0]);
    assert("jsx"@[0] != "pyw"@[0]);
    assert("jsx"@[0] != "mjs"@[0]);
    assert("jsx"@[0] != "cjs"@[0]);
}

proof fn lemma_language_rows_1()
    ensures
        language_of("ts"@) matches Some(l) && l@ == "typescript"@,
        language_of("mts"@) matches Some(l) && l@ == "typescript"@,
        language_of("cts"@) matches Some(l) && l@ == "typescript"@,
        language_of("tsx"@) matches Some(l) && l@ == "tsx"@,
        language_of("rs"@) matches Some(l) && l@ == "rust"@,
        language_of("go"@) matches Some(l) && l@ == "go"@,
        language_of("java"@) matches Some(l) && l@ == "java"@,
        language_of("kt"@) matches Some(l) && l@ == "kotlin"@,
        language_of("kts"@) matches Some(l) && l@ == "kotlin"@,
        language_of("rb"@) matches Some(l) && l@ == "ruby"@,
        language_of("swift"@) matches Some(l) && l@ == "swift"@,
        language_of("cs"@) matches Some(l) && l@ == "csharp"@,
        language_of("php"@) matches Some(l) && l@ == "php"@,
        language_of("sh"@) matches Some(l) && l@ == "bash"@,
{
    reveal_strlit("bash");
    assert("bash"@.len() == 4);
    reveal_strlit("c");
    assert("c"@.len() == 1);
    reveal_strlit("cc");
    assert("cc"@.len() == 2);
    reveal_strlit("cjs");
    assert("cjs"@.len() == 3);
    reveal_strlit("cpp");
    assert("cpp"@.len() == 3);
    reveal_strlit("cs");
    assert("cs"@.len() == 2);
    reveal_strlit("csharp");
    assert("csharp"@.len() == 6);
    reveal_strlit("cts");
    assert("cts"@.len() == 3);
    reveal_strlit("cxx");
    assert("cxx"@.len() == 3);
    reveal_strlit("go");
    assert("go"@.len() == 2);
    reveal_strlit("h");
    assert("h"@.len() == 1);
    reveal_strlit("hh");
    assert("hh"@.len() == 2);
    reveal_strlit("hpp");
    assert("hpp"@.len() == 3);
    reveal_strlit("hxx");
    assert("hxx"@.len() == 3);
    reveal_strlit("java");
    assert("java"@.len() == 4);
    reveal_strlit("js");
    assert("js"@.len() == 2);
    reveal_strlit("jsx");
    assert("jsx"@.len() == 3);
    reveal_strlit("kotlin");
    assert("kotlin"@.len() == 6);
    reveal_strlit("kt");
    assert("kt"@.len() == 2);
    reveal_strlit("kts");
    assert("kts"@.len() == 3);
    reveal_strlit("mjs");
    assert("mjs"@.len() == 3);
    reveal_strlit("mts");
    assert("mts"@.len() == 3);
    reveal_strlit("php");
    assert("php"@.len() == 3);
    reveal_strlit("py");
    assert("py"@.len() == 2);
    reveal_strlit("pyw");
    assert("pyw"@.len() == 3);
    reveal_strlit("rb");
    assert("rb"@.len() == 2);
    reveal_strlit("rs");
    assert("rs"@.len() == 2);
    reveal_strlit("ruby");
    assert("ruby"@.len() == 4);
    reveal_strlit("rust");
    assert("rust"@.len() == 4);
    reveal_strlit("sh");
    assert("sh"@.len() == 2);
    reveal_strlit("swift");
    assert("swift"@.len() == 5);
    reveal_strlit("ts");
    assert("ts"@.len() == 2);
    reveal_strlit("tsx");
    assert("tsx"@.len() == 3);
    reveal_strlit("typescript");
    assert("typescript"@.len() == 10);
    assert("ts"@[0] != "cc"@[0]);
    assert("ts"@[0] != "hh"@[0]);
    assert("ts"@[0] != "py"@[0]);
    assert("ts"@[0] != "js"@[0]);
    assert("mts"@[0] != "cpp"@[0]);
    assert("mts"@[0] != "cxx"@[0]);
    assert("mts"@[0] != "hpp"@[0]);
    assert("mts"@[0] != "hxx"@[0]);
    assert("mts"@[0] != "pyw"@[0]);
    assert("mts"@[1] != "mjs"@[1]);
    assert("mts"@[0] != "cjs"@[0]);
    assert("mts"@[0] != "jsx"@[0]);
    assert("cts"@[1] != "cpp"@[1]);
    assert("cts"@[1] != "cxx"@[1]);
    assert("cts"@[0] != "hpp"@[0]);
    assert("cts"@[0] != "hxx"@[0]);
    assert("cts"@[0] != "pyw"@[0]);
    assert("cts"@[0] != "mjs"@[0]);
    assert("cts"@[1] != "cjs"@[1]);
    assert("cts"@[0] != "jsx"@[0]);
    assert("cts"@[0] != "mts"@[0]);
    assert("tsx"@[0] != "cpp"@[0]);
    assert("tsx"@[0] != "cxx"@[0]);
    assert("tsx"@[0] != "hpp"@[0]);
    assert("tsx"@[0] != "hxx"@[0]);
    assert("tsx"@[0] != "pyw"@[0]);
    assert("tsx"@[0] != "mjs"@[0]);
    assert("tsx"@[0] != "cjs"@[0]);
    assert("tsx"@[0] != "jsx"@[0]);
    assert("tsx"@[0] != "mts"@[0]);
    assert("tsx"@[0] != "cts"@[0]);
    assert("rs"@[0] != "cc"@[0]);
    assert("rs"@[0] != "hh"@[0]);
    assert("rs"@[0] != "py"@[0]);
    assert("rs"@[0] != "js"@[0]);
    assert("rs"@[0] != "ts"@[0]);
    assert("go"@[0] != "cc"@[0]);
    assert("go"@[0] != "hh"@[0]);
    assert("go"@[0] != "py"@[0]);
    assert("go"@[0] != "js"@[0]);
    assert("go"@[0] != "ts"@[0]);
    assert("go"@[0] != "rs"@[0]);
    assert("kt"@[0] != "cc"@[0]);
    assert("kt"@[0] != "hh"@[0]);
    assert("kt"@[0] != "py"@[0]);
    assert("kt"@[0] != "js"@[0]);
    assert("kt"@[0] != "ts"@[0]);
    assert("kt"@[0] != "rs"@[0]);
    assert("kt"@[0] != "go"@[0]);
    assert("kts"@[0] != "cpp"@[0]);
    assert("kts"@[0] != "cxx"@[0]);
    assert("kts"@[0] != "hpp"@[0]);
    assert("kts"@[0] != "hxx"@[0]);
    assert("kts"@[0] != "pyw"@[0]);
    assert("kts"@[0] != "mjs"@[0]);
    assert("kts"@[0] != "cjs"@[0]);
    assert("kts"@[0] != "jsx"@[0]);
    assert("kts"@[0] != "mts"@[0]);
    assert("kts"@[0] != "cts"@[0]);
    assert("kts"@[0] != "tsx"@[0]);
    assert("rb"@[0] != "cc"@[0]);
    assert("rb"@[0] != "hh"@[0]);
    assert("rb"@[0] != "py"@[0]);
    assert("rb"@[0] != "js"@[0]);
    assert("rb"@[0] != "ts"@[0]);
    assert("rb"@[1] != "rs"@[1]);
    assert("rb"@[0] != "go"@[0]);
    assert("rb"@[0] != "kt"@[0]);
    assert("cs"@[1] != "cc"@[1]);
    assert("cs"@[0] != "hh"@[0]);
    assert("cs"@[0] != "py"@[0]);
    assert("cs"@[0] != "js"@[0]);
    assert("cs"@[0] != "ts"@[0]);
    assert("cs"@[0] != "rs"@[0]);
    assert("cs"@[0] != "go"@[0]);
    assert("cs"@[0] != "kt"@[0]);
    assert("cs"@[0] != "rb"@[0]);
    assert("php"@[0] != "cpp"@[0]);
    assert("php"@[0] != "cxx"@[0]);
    assert("php"@[0] != "hpp"@[0]);
    assert("php"@[0] != "hxx"@[0]);
    assert("php"@[1] != "pyw"@[1]);
    assert("php"@[0] != "mjs"@[0]);
    assert("php"@[0] != "cjs"@[0]);
    assert("php"@[0] != "jsx"@[0]);
    assert("php"@[0] != "mts"@[0]);
    assert("php"@[0] != "cts"@[0]);
    assert("php"@[0] != "tsx"@[0]);
    assert("php"@[0] != "kts"@[0]);
    assert("sh"@[0] != "cc"@[0]);
    assert("sh"@[0] != "hh"@[0]);
    assert("sh"@[0] != "py"@[0]);
    assert("sh"@[0] != "js"@[0]);
    assert("sh"@[0] != "ts"@[0]);
    assert("sh"@[0] != "rs"@[0]);
    assert("sh"@[0] != "go"@[0]);
    assert("sh"@[0] != "kt"@[0]);
    assert("sh"@[0] != "rb"@[0]);
    assert("sh"@[0] != "cs"@[0]);
}

proof fn lemma_language_rows_2()
    ensures
        language_of("bash"@) matches Some(l) && l@ == "bash"@,
        language_of("zsh"@) matches Some(l) && l@ == "bash"@,
        language_of("fish"@) matches Some(l) && l@ == "bash"@,
        language_of("pl"@) matches Some(l) && l@ == "perl"@,
        language_of("pm"@) matches Some(l) && l@ == "perl"@,
        language_of("lua"@) matches Some(l) && l@ == "lua"@,
        language_of("r"@) matches Some(l) && l@ == "r"@,
        language_of("scala"@) matches Some(l) && l@ == "scala"@,
        language_of("dart"@) matches Some(l) && l@ == "dart"@,
        language_of("ex"@) matches Some(l) && l@ == "elixir"@,
        language_of("exs"@) matches Some(l) && l@ == "elixir"@,
        language_of("erl"@) matches Some(l) && l@ == "erlang"@,
        language_of("hs"@) matches Some(l) && l@ == "haskell"@,
        language_of("ml"@) matches Some(l) && l@ == "ocaml"@,
{
    reveal_strlit("bash");
    assert("bash"@.len() == 4);
    reveal_strlit("c");
    assert("c"@.len() == 1);
    reveal_strlit("cc");
    assert("cc"@.len() == 2);
    reveal_strlit("cjs");
    assert("cjs"@.len() == 3);
    reveal_strlit("cpp");
    assert("cpp"@.len() == 3);
    reveal_strlit("cs");
    assert("cs"@.len() == 2);
    reveal_strlit("cts");
    assert("cts"@.len() == 3);
    reveal_strlit("cxx");
    assert("cxx"@.len() == 3);
    reveal_strlit("dart");
    assert("dart"@.len() == 4);
    reveal_strlit("elixir");
    assert("elixir"@.len() == 6);
    reveal_strlit("erl");
    assert("erl"@.len() == 3);
    reveal_strlit("erlang");
    assert("erlang"@.len() == 6);
    reveal_strlit("ex");
    assert("ex"@.len() == 2);
    reveal_strlit("exs");
    assert("exs"@.len() == 3);
    reveal_strlit("fish");
    assert("fish"@.len() == 4);
    reveal_strlit("go");
    assert("go"@.len() == 2);
    reveal_strlit("h");
    assert("h"@.len() == 1);
    reveal_strlit("haskell");
    assert("haskell"@.len() == 7);
    reveal_strlit("hh");
    assert("hh"@.len() == 2);
    reveal_strlit("hpp");
    assert("hpp"@.len() == 3);
    reveal_strlit("hs");
    assert("hs"@.len() == 2);
    reveal_strlit("hxx");
    assert("hxx"@.len() == 3);
    reveal_strlit("java");
    assert("java"@.len() == 4);
    reveal_strlit("js");
    assert("js"@.len() == 2);
    reveal_strlit("jsx");
    assert("jsx"@.len() == 3);
    reveal_strlit("kt");
    assert("kt"@.len() == 2);
    reveal_strlit("kts");
    assert("kts"@.len() == 3);
    reveal_strlit("lua");
    assert("lua"@.len() == 3);
    reveal_strlit("mjs");
    assert("mjs"@.len() == 3);
    reveal_strlit("ml");
    assert("ml"@.len() == 2);
    reveal_strlit("mts");
    assert("mts"@.len() == 3);
    reveal_strlit("ocaml");
    assert("ocaml"@.len() == 5);
    reveal_strlit("perl");
    assert("perl"@.len() == 4);
    reveal_strlit("php");
    assert("php"@.len() == 3);
    reveal_strlit("pl");
    assert("pl"@.len() == 2);
    reveal_strlit("pm");
    assert("pm"@.len() == 2);
    reveal_strlit("py");
    assert("py"@.len() == 2);
    reveal_strlit("pyw");
    assert("pyw"@.len() == 3);
    reveal_strlit("r");
    assert("r"@.len() == 1);
    reveal_strlit("rb");
    assert("rb"@.len() == 2);
    reveal_strlit("rs");
    assert("rs"@.len() == 2);
    reveal_strlit("scala");
    assert("scala"@.len() == 5);
    reveal_strlit("sh");
    assert("sh"@.len() == 2);
    reveal_strlit("swift");
    assert("swift"@.len() == 5);
    reveal_strlit("ts");
    assert("ts"@.len() == 2);
    reveal_strlit("tsx");
    assert("tsx"@.len() == 3);
    reveal_strlit("zsh");
    assert("zsh"@.len() == 3);
    assert("bash"@[0] != "java"@[0]);
    assert("zsh"@[0] != "cpp"@[0]);
    assert("zsh"@[0] != "cxx"@[0]);
    assert("zsh"@[0] != "hpp"@[0]);
    assert("zsh"@[0] != "hxx"@[0]);
    assert("zsh"@[0] != "pyw"@[0]);
    assert("zsh"@[0] != "mjs"@[0]);
    assert("zsh"@[0] != "cjs"@[0]);
    assert("zsh"@[0] != "jsx"@[0]);
    assert("zsh"@[0] != "mts"@[0]);
    assert("zsh"@[0] != "cts"@[0]);
    assert("zsh"@[0] != "tsx"@[0]);
    assert("zsh"@[0] != "kts"@[0]);
    assert("zsh"@[0] != "php"@[0]);
    assert("fish"@[0] != "java"@[0]);
    assert("fish"@[0] != "bash"@[0]);
    assert("pl"@[0] != "cc"@[0]);
    assert("pl"@[0] != "hh"@[0]);
    assert("pl"@[1] != "py"@[1]);
    assert("pl"@[0] != "js"@[0]);
    assert("pl"@[0] != "ts"@[0]);
    assert("pl"@[0] != "rs"@[0]);
    assert("pl"@[0] != "go"@[0]);
    assert("pl"@[0] != "kt"@[0]);
    assert("pl"@[0] != "rb"@[0]);
    assert("pl"@[0] != "cs"@[0]);
    assert("pl"@[0] != "sh"@[0]);
    assert("pm"@[0] != "cc"@[0]);
    assert("pm"@[0] != "hh"@[0]);
    assert("pm"@[1] != "py"@[1]);
    assert("pm"@[0] != "js"@[0]);
    assert("pm"@[0] != "ts"@[0]);
    assert("pm"@[0] != "rs"@[0]);
    assert("pm"@[0] != "go"@[0]);
    assert("pm"@[0] != "kt"@[0]);
    assert("pm"@[0] != "rb"@[0]);
    assert("pm"@[0] != "cs"@[0]);
    assert("pm"@[0] != "sh"@[0]);
    assert("pm"@[1] != "pl"@[1]);
    assert("lua"@[0] != "cpp"@[0]);
    assert("lua"@[0] != "cxx"@[0]);
    assert("lua"@[0] != "hpp"@[0]);
    assert("lua"@[0] != "hxx"@[0]);
    assert("lua"@[0] != "pyw"@[0]);
    assert("lua"@[0] != "mjs"@[0]);
    assert("lua"@[0] != "cjs"@[0]);
    assert("lua"@[0] != "jsx"@[0]);
    assert("lua"@[0] != "mts"@[0]);
    assert("lua"@[0] != "cts"@[0]);
    assert("lua"@[0] != "tsx"@[0]);
    assert("lua"@[0] != "kts"@[0]);
    assert("lua"@[0] != "php"@[0]);
    assert("lua"@[0] != "zsh"@[0]);
    assert("r"@[0] != "c"@[0]);
    assert("r"@[0] != "h"@[0]);
    assert("scala"@[1] != "swift"@[1]);
    assert("dart"@[0] != "java"@[0]);
    assert("dart"@[0] != "bash"@[0]);
    assert("dart"@[0] != "fish"@[0]);
    assert("ex"@[0] != "cc"@[0]);
    assert("ex"@[0] != "hh"@[0]);
    assert("ex"@[0] != "py"@[0]);
    assert("ex"@[0] != "js"@[0]);
    assert("ex"@[0] != "ts"@[0]);
    assert("ex"@[0] != "rs"@[0]);
    assert("ex"@[0] != "go"@[0]);
    assert("ex"@[0] != "kt"@[0]);
    assert("ex"@[0] != "rb"@[0]);
    assert("ex"@[0] != "cs"@[0]);
    assert("ex"@[0] != "sh"@[0]);
    assert("ex"@[0] != "pl"@[0]);
    assert("ex"@[0] != "pm"@[0]);
    assert("exs"@[0] != "cpp"@[0]);
    assert("exs"@[0] != "cxx"@[0]);
    assert("exs"@[0] != "hpp"@[0]);
    assert("exs"@[0] != "hxx"@[0]);
    assert("exs"@[0] != "pyw"@[0]);
    assert("exs"@[0] != "mjs"@[0]);
    assert("exs"@[0] != "cjs"@[0]);
    assert("exs"@[0] != "jsx"@[0]);
    assert("exs"@[0] != "mts"@[0]);
    assert("exs"@[0] != "cts"@[0]);
    assert("exs"@[0] != "tsx"@[0]);
    assert("exs"@[0] != "kts"@[0]);
    assert("exs"@[0] != "php"@[0]);
    assert("exs"@[0] != "zsh"@[0]);
    assert("exs"@[0] != "lua"@[0]);
    assert("erl"@[0] != "cpp"@[0]);
    assert("erl"@[0] != "cxx"@[0]);
    assert("erl"@[0] != "hpp"@[0]);
    assert("erl"@[0] != "hxx"@[0]);
    assert("erl"@[0] != "pyw"@[0]);
    assert("erl"@[0] != "mjs"@[0]);
    assert("erl"@[0] != "cjs"@[0]);
    assert("erl"@[0] != "jsx"@[0]);
    assert("erl"@[0] != "mts"@[0]);
    assert("erl"@[0] != "cts"@[0]);
    assert("erl"@[0] != "tsx"@[0]);
    assert("erl"@[0] != "kts"@[0]);
    assert("erl"@[0] != "php"@[0]);
    assert("erl"@[0] != "zsh"@[0]);
    assert("erl"@[0] != "lua"@[0]);
    assert("erl"@[1] != "exs"@[1]);
    assert("hs"@[0] != "cc"@[0]);
    assert("hs"@[1] != "hh"@[1]);
    assert("hs"@[0] != "py"@[0]);
    assert("hs"@[0] != "js"@[0]);
    assert("hs"@[0] != "ts"@[0]);
    assert("hs"@[0] != "rs"@[0]);
    assert("hs"@[0] != "go"@[0]);
    assert("hs"@[0] != "kt"@[0]);
    assert("hs"@[0] != "rb"@[0]);
    assert("hs"@[0] != "cs"@[0]);
    assert("hs"@[0] != "sh"@[0]);
    assert("hs"@[0] != "pl"@[0]);
    assert("hs"@[0] != "pm"@[0]);
    assert("hs"@[0] != "ex"@[0]);
    assert("ml"@[0] != "cc"@[0]);
    assert("ml"@[0] != "hh"@[0]);
    assert("ml"@[0] != "py"@[0]);
    assert("ml"@[0] != "js"@[0]);
    assert("ml"@[0] != "ts"@[0]);
    assert("ml"@[0] != "rs"@[0]);
    assert("ml"@[0] != "go"@[0]);
    assert("ml"@[0] != "kt"@[0]);
    assert("ml"@[0] != "rb"@[0]);
    assert("ml"@[0] != "cs"@[0]);
    assert("ml"@[0] != "sh"@[0]);
    assert("ml"@[0] != "pl"@[0]);
    assert("ml"@[0] != "pm"@[0]);
    assert("ml"@[0] != "ex"@[0]);
    assert("ml"@[0] != "hs"@[0]);
}

proof fn lemma_language_rows_3()
    ensures
        language_of("mli"@) matches Some(l) && l@ == "ocaml"@,
        language_of("sql"@) matches Some(l) && l@ == "sql"@,
        language_of("m"@) matches Some(l) && l@ == "objectivec"@,
        language_of("mm"@) matches Some(l) && l@ == "objectivec"@,
        language_of("zig"@) matches Some(l) && l@ == "zig"@,
        language_of("nim"@) matches Some(l) && l@ == "nim"@,
        language_of("v"@) matches Some(l) && l@ == "v"@,
        language_of("groovy"@) matches Some(l) && l@ == "groovy"@,
        language_of("ps1"@) matches Some(l) && l@ == "powershell"@,
        language_of("bat"@) matches Some(l) && l@ == "batch"@,
        language_of("cmd"@) matches Some(l) && l@ == "batch"@,
{
    reveal_strlit("bash");
    assert("bash"@.len() == 4);
    reveal_strlit("bat");
    assert("bat"@.len() == 3);
    reveal_strlit("batch");
    assert("batch"@.len() == 5);
    reveal_strlit("c");
    assert("c"@.len() == 1);
    reveal_strlit("cc");
    assert("cc"@.len() == 2);
    reveal_strlit("cjs");
    assert("cjs"@.len() == 3);
    reveal_strlit("cmd");
    assert("cmd"@.len() == 3);
    reveal_strlit("cpp");
    assert("cpp"@.len() == 3);
    reveal_strlit("cs");
    assert("cs"@.len() == 2);
    reveal_strlit("cts");
    assert("cts"@.len() == 3);
    reveal_strlit("cxx");
    assert("cxx"@.len() == 3);
    reveal_strlit("dart");
    assert("dart"@.len() == 4);
    reveal_strlit("erl");
    assert("erl"@.len() == 3);
    reveal_strlit("ex");
    assert("ex"@.len() == 2);
    reveal_strlit("exs");
    assert("exs"@.len() == 3);
    reveal_strlit("fish");
    assert("fish"@.len() == 4);
    reveal_strlit("go");
    assert("go"@.len() == 2);
    reveal_strlit("groovy");
    assert("groovy"@.len() == 6);
    reveal_strlit("h");
    assert("h"@.len() == 1);
    reveal_strlit("hh");
    assert("hh"@.len() == 2);
    reveal_strlit("hpp");
    assert("hpp"@.len() == 3);
    reveal_strlit("hs");
    assert("hs"@.len() == 2);
    reveal_strlit("hxx");
    assert("hxx"@.len() == 3);
    reveal_strlit("java");
    assert("java"@.len() == 4);
    reveal_strlit("js");
    assert("js"@.len() == 2);
    reveal_strlit("jsx");
    assert("jsx"@.len() == 3);
    reveal_strlit("kt");
    assert("kt"@.len() == 2);
    reveal_strlit("kts");
    assert("kts"@.len() == 3);
    reveal_strlit("lua");
    assert("lua"@.len() == 3);
    reveal_strlit("m");
    assert("m"@.len() == 1);
    reveal_strlit("mjs");
    assert("mjs"@.len() == 3);
    reveal_strlit("ml");
    assert("ml"@.len() == 2);
    reveal_strlit("mli");
    assert("mli"@.len() == 3);
    reveal_strlit("mm");
    assert("mm"@.len() == 2);
    reveal_strlit("mts");
    assert("mts"@.len() == 3);
    reveal_strlit("nim");
    assert("nim"@.len() == 3);
    reveal_strlit("objectivec");
    assert("objectivec"@.len() == 10);
    reveal_strlit("ocaml");
    assert("ocaml"@.len() == 5);
    reveal_strlit("php");
    assert("php"@.len() == 3);
    reveal_strlit("pl");
    assert("pl"@.len() == 2);
    reveal_strlit("pm");
    assert("pm"@.len() == 2);
    reveal_strlit("powershell");
    assert("powershell"@.len() == 10);
    reveal_strlit("ps1");
    assert("ps1"@.len() == 3);
    reveal_strlit("py");
    assert("py"@.len() == 2);
    reveal_strlit("pyw");
    assert("pyw"@.len() == 3);
    reveal_strlit("r");
    assert("r"@.len() == 1);
    reveal_strlit("rb");
    assert("rb"@.len() == 2);
    reveal_strlit("rs");
    assert("rs"@.len() == 2);
    reveal_strlit("scala");
    assert("scala"@.len() == 5);
    reveal_strlit("sh");
    assert("sh"@.len() == 2);
    reveal_strlit("sql");
    assert("sql"@.len() == 3);
    reveal_strlit("swift");
    assert("swift"@.len() == 5);
    reveal_strlit("ts");
    assert("ts"@.len() == 2);
    reveal_strlit("tsx");
    assert("tsx"@.len() == 3);
    reveal_strlit("v");
    assert("v"@.len() == 1);
    reveal_strlit("zig");
    assert("zig"@.len() == 3);
    reveal_strlit("zsh");
    assert("zsh"@.len() == 3);
    assert("mli"@[0] != "cpp"@[0]);
    assert("mli"@[0] != "cxx"@[0]);
    assert("mli"@[0] != "hpp"@[0]);
    assert("mli"@[0] != "hxx"@[0]);
    assert("mli"@[0] != "pyw"@[0]);
    assert("mli"@[1] != "mjs"@[1]);
    assert("mli"@[0] != "cjs"@[0]);
    assert("mli"@[0] != "jsx"@[0]);
    assert("mli"@[1] != "mts"@[1]);
    assert("mli"@[0] != "cts"@[0]);
    assert("mli"@[0] != "tsx"@[0]);
    assert("mli"@[0] != "kts"@[0]);
    assert("mli"@[0] != "php"@[0]);
    assert("mli"@[0] != "zsh"@[0]);
    assert("mli"@[0] != "lua"@[0]);
    assert("mli"@[0] != "exs"@[0]);
    assert("mli"@[0] != "erl"@[0]);
    assert("sql"@[0] != "cpp"@[0]);
    assert("sql"@[0] != "cxx"@[0]);
    assert("sql"@[0] != "hpp"@[0]);
    assert("sql"@[0] != "hxx"@[0]);
    assert("sql"@[0] != "pyw"@[0]);
    assert("sql"@[0] != "mjs"@[0]);
    assert("sql"@[0] != "cjs"@[0]);
    assert("sql"@[0] != "jsx"@[0]);
    assert("sql"@[0] != "mts"@[0]);
    assert("sql"@[0] != "cts"@[0]);
    assert("sql"@[0] != "tsx"@[0]);
    assert("sql"@[0] != "kts"@[0]);
    assert("sql"@[0] != "php"@[0]);
    assert("sql"@[0] != "zsh"@[0]);
    assert("sql"@[0] != "lua"@[0]);
    assert("sql"@[0] != "exs"@[0]);
    assert("sql"@[0] != "erl"@[0]);
    assert("sql"@[0] != "mli"@[0]);
    assert("m"@[0] != "c"@[0]);
    assert("m"@[0] != "h"@[0]);
    assert("m"@[0] != "r"@[0]);
    assert("mm"@[0] != "cc"@[0]);
    assert("mm"@[0] != "hh"@[0]);
    assert("mm"@[0] != "py"@[0]);
    assert("mm"@[0] != "js"@[0]);
    assert("mm"@[0] != "ts"@[0]);
    assert("mm"@[0] != "rs"@[0]);
    assert("mm"@[0] != "go"@[0]);
    assert("mm"@[0] != "kt"@[0]);
    assert("mm"@[0] != "rb"@[0]);
    assert("mm"@[0] != "cs"@[0]);
    assert("mm"@[0] != "sh"@[0]);
    assert("mm"@[0] != "pl"@[0]);
    assert("mm"@[0] != "pm"@[0]);
    assert("mm"@[0] != "ex"@[0]);
    assert("mm"@[0] != "hs"@[0]);
    assert("mm"@[1] != "ml"@[1]);
    assert("zig"@[0] != "cpp"@[0]);
    assert("zig"@[0] != "cxx"@[0]);
    assert("zig"@[0] != "hpp"@[0]);
    assert("zig"@[0] != "hxx"@[0]);
    assert("zig"@[0] != "pyw"@[0]);
    assert("zig"@[0] != "mjs"@[0]);
    assert("zig"@[0] != "cjs"@[0]);
    assert("zig"@[0] != "jsx"@[0]);
    assert("zig"@[0] != "mts"@[0]);
    assert("zig"@[0] != "cts"@[0]);
    assert("zig"@[0] != "tsx"@[0]);
    assert("zig"@[0] != "kts"@[0]);
    assert("zig"@[0] != "php"@[0]);
    assert("zig"@[1] != "zsh"@[1]);
    assert("zig"@[0] != "lua"@[0]);
    assert("zig"@[0] != "exs"@[0]);
    assert("zig"@[0] != "erl"@[0]);
    assert("zig"@[0] != "mli"@[0]);
    assert("zig"@[0] != "sql"@[0]);
    assert("nim"@[0] != "cpp"@[0]);
    assert("nim"@[0] != "cxx"@[0]);
    assert("nim"@[0] != "hpp"@[0]);
    assert("nim"@[0] != "hxx"@[0]);
    assert("nim"@[0] != "pyw"@[0]);
    assert("nim"@[0] != "mjs"@[0]);
    assert("nim"@[0] != "cjs"@[0]);
    assert("nim"@[0] != "jsx"@[0]);
    assert("nim"@[0] != "mts"@[0]);
    assert("nim"@[0] != "cts"@[0]);
    assert("nim"@[0] != "tsx"@[0]);
    assert("nim"@[0] != "kts"@[0]);
    assert("nim"@[0] != "php"@[0]);
    assert("nim"@[0] != "zsh"@[0]);
    assert("nim"@[0] != "lua"@[0]);
    assert("nim"@[0] != "exs"@[0]);
    assert("nim"@[0] != "erl"@[0]);
    assert("nim"@[0] != "mli"@[0]);
    assert("nim"@[0] != "sql"@[0]);
    assert("nim"@[0] != "zig"@[0]);
    assert("v"@[0] != "c"@[0]);
    assert("v"@[0] != "h"@[0]);
    assert("v"@[0] != "r"@[0]);
    assert("v"@[0] != "m"@[0]);
    assert("ps1"@[0] != "cpp"@[0]);
    assert("ps1"@[0] != "cxx"@[0]);
    assert("ps1"@[0] != "hpp"@[0]);
    assert("ps1"@[0] != "hxx"@[0]);
    assert("ps1"@[1] != "pyw"@[1]);
    assert("ps1"@[0] != "mjs"@[0]);
    assert("ps1"@[0] != "cjs"@[0]);
    assert("ps1"@[0] != "jsx"@[0]);
    assert("ps1"@[0] != "mts"@[0]);
    assert("ps1"@[0] != "cts"@[0]);
    assert("ps1"@[0] != "tsx"@[0]);
    assert("ps1"@[0] != "kts"@[0]);
    assert("ps1"@[1] != "php"@[1]);
    assert("ps1"@[0] != "zsh"@[0]);
    assert("ps1"@[0] != "lua"@[0]);
    assert("ps1"@[0] != "exs"@[0]);
    assert("ps1"@[0] != "erl"@[0]);
    assert("ps1"@[0] != "mli"@[0]);
    assert("ps1"@[0] != "sql"@[0]);
    assert("ps1"@[0] != "zig"@[0]);
    assert("ps1"@[0] != "nim"@[0]);
    assert("bat"@[0] != "cpp"@[0]);
    assert("bat"@[0] != "cxx"@[0]);
    assert("bat"@[0] != "hpp"@[0]);
    assert("bat"@[0] != "hxx"@[0]);
    assert("bat"@[0] != "pyw"@[0]);
    assert("bat"@[0] != "mjs"@[0]);
    assert("bat"@[0] != "cjs"@[0]);
    assert("bat"@[0] != "jsx"@[0]);
    assert("bat"@[0] != "mts"@[0]);
    assert("bat"@[0] != "cts"@[0]);
    assert("bat"@[0] != "tsx"@[0]);
    assert("bat"@[0] != "kts"@[0]);
    assert("bat"@[0] != "php"@[0]);
    assert("bat"@[0] != "zsh"@[0]);
    assert("bat"@[0] != "lua"@[0]);
    assert("bat"@[0] != "exs"@[0]);
    assert("bat"@[0] != "erl"@[0]);
    assert("bat"@[0] != "mli"@[0]);
    assert("bat"@[0] != "sql"@[0]);
    assert("bat"@[0] != "zig"@[0]);
    assert("bat"@[0] != "nim"@[0]);
    assert("bat"@[0] != "ps1"@[0]);
    assert("cmd"@[1] != "cpp"@[1]);
    assert("cmd"@[1] != "cxx"@[1]);
    assert("cmd"@[0] != "hpp"@[0]);
    assert("cmd"@[0] != "hxx"@[0]);
    assert("cmd"@[0] != "pyw"@[0]);
    assert("cmd"@[0] != "mjs"@[0]);
    assert("cmd"@[1] != "cjs"@[1]);
    assert("cmd"@[0] != "jsx"@[0]);
    assert("cmd"@[0] != "mts"@[0]);
    assert("cmd"@[1] != "cts"@[1]);
    assert("cmd"@[0] != "tsx"@[0]);
    assert("cmd"@[0] != "kts"@[0]);
    assert("cmd"@[0] != "php"@[0]);
    assert("cmd"@[0] != "zsh"@[0]);
    assert("cmd"@[0] != "lua"@[0]);
    assert("cmd"@[0] != "exs"@[0]);
    assert("cmd"@[0] != "erl"@[0]);
    assert("cmd"@[0] != "mli"@[0]);
    assert("cmd"@[0] != "sql"@[0]);
    assert("cmd"@[0] != "zig"@[0]);
    assert("cmd"@[0] != "nim"@[0]);
    assert("cmd"@[0] != "ps1"@[0]);
    assert("cmd"@[0] != "bat"@[0]);
}

/// The language tag of every known code extension, as a table: C and C++
/// headers and sources, Python, JavaScript and TypeScript with their module
/// variants, and the other languages, each by its extensions.
pub proof fn lemma_language_table()
    ensures
        language_of("c"@) matches Some(l) && l@ == "c"@,
        language_of("h"@) matches Some(l) && l@ == "c"@,
        language_of("cpp"@) matches Some(l) && l@ == "cpp"@,
        language_of("cc"@) matches Some(l) && l@ == "cpp"@,
        language_of("cxx"@) matches Some(l) && l@ == "cpp"@,
        language_of("hpp"@) matches Some(l) && l@ == "cpp"@,
        language_of("hxx"@) matches Some(l) && l@ == "cpp"@,
        language_of("hh"@) matches Some(l) && l@ == "cpp"@,
        language_of("py"@) matches Some(l) && l@ == "python"@,
        language_of("pyw"@) matches Some(l) && l@ == "python"@,
        language_of("js"@) matches Some(l) && l@ == "javascript"@,
        language_of("mjs"@) matches Some(l) && l@ == "javascript"@,
        language_of("cjs"@) matches Some(l) && l@ == "javascript"@,
        language_of("jsx"@) matches Some(l) && l@ == "jsx"@,
        language_of("ts"@) matches Some(l) && l@ == "typescript"@,
        language_of("mts"@) matches Some(l) && l@ == "typescript"@,
        language_of("cts"@) matches Some(l) && l@ == "typescript"@,
        language_of("tsx"@) matches Some(l) && l@ == "tsx"@,
        language_of("rs"@) matches Some(l) && l@ == "rust"@,
        language_of("go"@) matches Some(l) && l@ == "go"@,
        language_of("java"@) matches Some(l) && l@ == "java"@,
        language_of("kt"@) matches Some(l) && l@ == "kotlin"@,
        language_of("kts"@) matches Some(l) && l@ == "kotlin"@,
        language_of("rb"@) matches Some(l) && l@ == "ruby"@,
        language_of("swift"@) matches Some(l) && l@ == "swift"@,
        language_of("cs"@) matches Some(l) && l@ == "csharp"@,
        language_of("php"@) matches Some(l) && l@ == "php"@,
        language_of("sh"@) matches Some(l) && l@ == "bash"@,
        language_of("bash"@) matches Some(l) && l@ == "bash"@,
        language_of("zsh"@) matches Some(l) && l@ == "bash"@,
        language_of("fish"@) matches Some(l) && l@ == "bash"@,
        language_of("pl"@) matches Some(l) && l@ == "perl"@,
        language_of("pm"@) matches Some(l) && l@ == "perl"@,
        language_of("lua"@) matches Some(l) && l@ == "lua"@,
        language_of("r"@) matches Some(l) && l@ == "r"@,
        language_of("scala"@) matches Some(l) && l@ == "scala"@,
        language_of("dart"@) matches Some(l) && l@ == "dart"@,
        language_of("ex"@) matches Some(l) && l@ == "elixir"@,
        language_of("exs"@) matches Some(l) && l@ == "elixir"@,
        language_of("erl"@) matches Some(l) && l@ == "erlang"@,
        language_of("hs"@) matches Some(l) && l@ == "haskell"@,
        language_of("ml"@) matches Some(l) && l@ == "ocaml"@,
        language_of("mli"@) matches Some(l) && l@ == "ocaml"@,
        language_of("sql"@) matches Some(l) && l@ == "sql"@,
        language_of("m"@) matches Some(l) && l@ == "objectivec"@,
        language_of("mm"@) matches Some(l) && l@ == "objectivec"@,
        language_of("zig"@) matches Some(l) && l@ == "zig"@,
        language_of("nim"@) matches Some(l) && l@ == "nim"@,
        language_of("v"@) matches Some(l) && l@ == "v"@,
        language_of("groovy"@) matches Some(l) && l@ == "groovy"@,
        language_of("ps1"@) matches Some(l) && l@ == "powershell"@,
        language_of("bat"@) matches Some(l) && l@ == "batch"@,
        language_of("cmd"@) matches Some(l) && l@ == "batch"@,
{
    lemma_language_rows_0();
    lemma_language_rows_1();
    lemma_language_rows_2();
    lemma_language_rows_3();
}

/// Every extension that has a language tag is one this converter handles.
pub proof fn lemma_tagged_extensions_handled()
    ensures
        crate::converter::ext_listed(code_extensions(), "c"@),
        crate::converter::ext_listed(code_extensions(), "h"@),
        crate::converter::ext_listed(code_extensions(), "cpp"@),
        crate::converter::ext_listed(code_extensions(), "cc"@),
        crate::converter::ext_listed(code_extensions(), "cxx"@),
        crate::converter::ext_listed(code_extensions(), "hpp"@),
        crate::converter::ext_listed(code_extensions(), "hxx"@),
        crate::converter::ext_listed(code_extensions(), "hh"@),
        crate::converter::ext_listed(code_extensions(), "py"@),
        crate::converter::ext_listed(code_extensions(), "pyw"@),
        crate::converter::ext_listed(code_extensions(), "js"@),
        crate::converter::ext_listed(code_extensions(), "mjs"@),
        crate::converter::ext_listed(code_extensions(), "cjs"@),
        crate::converter::ext_listed(code_extensions(), "jsx"@),
        crate::converter::ext_listed(code_extensions(), "ts"@),
        crate::converter::ext_listed(code_extensions(), "mts"@),
        crate::converter::ext_listed(code_extensions(), "cts"@),
        crate::converter::ext_listed(code_extensions(), "tsx"@),
        crate::converter::ext_listed(code_extensions(), "rs"@),
        crate::converter::ext_listed(code_extensions(), "go"@),
        crate::converter::ext_listed(code_extensions(), "java"@),
        crate::converter::ext_listed(code_extensions(), "kt"@),
        crate::converter::ext_listed(code_extensions(), "kts"@),
        crate::converter::ext_listed(code_extensions(), "rb"@),
        crate::converter::ext_listed(code_extensions(), "swift"@),
        crate::converter::ext_listed(code_extensions(), "cs"@),
        crate::converter::ext_listed(code_extensions(), "php"@),
        crate::converter::ext_listed(code_extensions(), "sh"@),
        crate::converter::ext_listed(code_extensions(), "bash"@),
        crate::converter::ext_listed(code_extensions(), "zsh"@),
        crate::converter::ext_listed(code_extensions(), "fish"@),
        crate::converter::ext_listed(code_extensions(), "pl"@),
        crate::converter::ext_listed(code_extensions(), "pm"@),
        crate::converter::ext_listed(code_extensions(), "lua"@),
        crate::converter::ext_listed(code_extensions(), "r"@),
        crate::converter::ext_listed(code_extensions(), "scala"@),
        crate::converter::ext_listed(code_extensions(), "dart"@),
        crate::converter::ext_listed(code_extensions(), "ex"@),
        crate::converter::ext_listed(code_extensions(), "exs"@),
        crate::converter::ext_listed(code_extensions(), "erl"@),
        crate::converter::ext_listed(code_extensions(), "hs"@),
        crate::converter::ext_listed(code_extensions(), "ml"@),
        crate::converter::ext_listed(code_extensions(), "mli"@),
        crate::converter::ext_listed(code_extensions(), "sql"@),
        crate::converter::ext_listed(code_extensions(), "m"@),
        crate::converter::ext_listed(code_extensions(), "mm"@),
        crate::converter::ext_listed(code_extensions(), "zig"@),
        crate::converter::ext_listed(code_extensions(), "nim"@),
        crate::converter::ext_listed(code_extensions(), "v"@),
        crate::converter::ext_listed(code_extensions(), "groovy"@),
        crate::converter::ext_listed(code_extensions(), "ps1"@),
        crate::converter::ext_listed(code_extensions(), "bat"@),
        crate::converter::ext_listed(code_extensions(), "cmd"@),
{
    assert(code_extensions()[0]@ == "c"@);
    assert(code_extensions()[1]@ == "h"@);
    assert(code_extensions()[2]@ == "cpp"@);
    assert(code_extensions()[3]@ == "cc"@);
    assert(code_extensions()[4]@ == "cxx"@);
    assert(code_extensions()[5]@ == "hpp"@);
    assert(code_extensions()[6]@ == "hxx"@);
    assert(code_extensions()[7]@ == "hh"@);
    assert(code_extensions()[8]@ == "py"@);
    assert(code_extensions()[9]@ == "pyw"@);
    assert(code_extensions()[10]@ == "js"@);
    assert(code_extensions()[11]@ == "mjs"@);
    assert(code_extensions()[12]@ == "cjs"@);
    assert(code_extensions()[13]@ == "jsx"@);
    assert(code_extensions()[14]@ == "ts"@);
    assert(code_extensions()[15]@ == "mts"@);
    assert(code_extensions()[16]@ == "cts"@);
    assert(code_extensions()[17]@ == "tsx"@);
    assert(code_extensions()[18]@ == "rs"@);
    assert(code_extensions()[19]@ == "go"@);
    assert(code_extensions()[20]@ == "java"@);
    assert(code_extensions()[21]@ == "kt"@);
    assert(code_extensions()[22]@ == "kts"@);
    assert(code_extensions()[23]@ == "rb"@);
    assert(code_extensions()[24]@ == "swift"@);
    assert(code_extensions()[25]@ == "cs"@);
    assert(code_extensions()[26]@ == "php"@);
    assert(code_extensions()[27]@ == "sh"@);
    assert(code_extensions()[28]@ == "bash"@);
    assert(code_extensions()[29]@ == "zsh"@);
    assert(code_extensions()[30]@ == "fish"@);
    assert(code_extensions()[31]@ == "pl"@);
    assert(code_extensions()[32]@ == "pm"@);
    assert(code_extensions()[33]@ == "lua"@);
    assert(code_extensions()[34]@ == "r"@);
    assert(code_extensions()[35]@ == "scala"@);
    assert(code_extensions()[36]@ == "dart"@);
    assert(code_extensions()[37]@ == "ex"@);
    assert(code_extensions()[38]@ == "exs"@);
    assert(code_extensions()[39]@ == "erl"@);
    assert(code_extensions()[40]@ == "hs"@);
    assert(code_extensions()[41]@ == "ml"@);
    assert(code_extensions()[42]@ == "mli"@);
    assert(code_extensions()[43]@ == "sql"@);
    assert(code_extensions()[44]@ == "m"@);
    assert(code_extensions()[45]@ == "mm"@);
    assert(code_extensions()[46]@ == "zig"@);
    assert(code_extensions()[47]@ == "nim"@);
    assert(code_extensions()[48]@ == "v"@);
    assert(code_extensions()[49]@ == "groovy"@);
    assert(code_extensions()[50]@ == "ps1"@);
    assert(code_extensions()[51]@ == "bat"@);
    assert(code_extensions()[52]@ == "cmd"@);
}

} // verus!
