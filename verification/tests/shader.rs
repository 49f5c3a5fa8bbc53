use wgpu_engine::gfx::shader::{
    default_shaderlib, directives_well_formed, handle_include, proc_shader_code, ShaderCode,
    ShaderLib, ShaderPath,
};
use wgpu_engine::gfx::text::{
    chars_of, split_first_line, strip_prefix, trim, trim_end, trim_start, whitespace,
};

fn text(chars: &[char]) -> String {
    chars.iter().collect()
}

fn greeting_lib() -> ShaderLib {
    let mut lib = ShaderLib::new();
    lib.insert("greeting", "HELLO\nEARTH");
    lib
}

#[test]
fn proc_shader_code_include_1() {
    let lines = [
        "432 Hello",                       //
        "World 123",                       //
        r#"  /// @include "greeting"   "#, //
        "goodbye",                         //
        "world",                           //
    ];
    let mut lib = ShaderLib::new();
    lib.insert("greeting", "HELLO\nEARTH");

    let input = lines.join("\n");
    let output = proc_shader_code(&input, Some(&lib));

    let mut expected = Vec::from(lines);
    expected.remove(2);
    expected.insert(2, "HELLO");
    expected.insert(3, "EARTH");
    let expected = expected.join("\n");

    assert_eq!(expected, output);
}

#[test]
fn proc_shader_code_noop() {
    let lines = [
        "432 Hello", //
        "World 123", //
        "goodbye",   //
        "world",     //
    ];
    let input = lines.join("\n");
    let output = proc_shader_code(&input, None);
    assert_eq!(input, output);
}

/// Expands the include directives of `code`, and panics where one of them
/// is malformed.
fn expand(code: &str, lib: Option<&ShaderLib>) -> String {
    if !directives_well_formed(code) {
        panic!("Malformed @include directive!");
    }
    proc_shader_code(code, lib)
}

#[test]
#[should_panic]
fn proc_shader_code_include_panic_1() {
    let lines = [
        "432 Hello",                      //
        "World 123",                      //
        r#"  /// @include "greeting   "#, //
        "goodbye",                        //
        "world",                          //
    ];
    let mut lib = ShaderLib::new();
    lib.insert("greeting", "HELLO\nEARTH");

    let input = lines.join("\n");
    let _ = expand(&input, Some(&lib));
}

#[test]
#[should_panic]
fn proc_shader_code_include_panic_2() {
    let lines = [
        "432 Hello",                      //
        "World 123",                      //
        r#"  /// @include greeting"   "#, //
        "goodbye",                        //
        "world",                          //
    ];
    let mut lib = ShaderLib::new();
    lib.insert("greeting", "HELLO\nEARTH");

    let input = lines.join("\n");
    let _ = expand(&input, Some(&lib));
}

#[test]
#[should_panic]
fn proc_shader_code_include_panic_3() {
    let lines = [
        "432 Hello",                     //
        "World 123",                     //
        r#"  /// @include greeting   "#, //
        "goodbye",                       //
        "world",                         //
    ];
    let mut lib = ShaderLib::new();
    lib.insert("greeting", "HELLO\nEARTH");

    let input = lines.join("\n");
    let _ = expand(&input, Some(&lib));
}

#[test]
#[should_panic]
fn proc_shader_code_include_panic_4() {
    let lines = [
        "432 Hello",                      //
        "World 123",                      //
        r#"  /// @include"greeting"   "#, //
        "goodbye",                        //
        "world",                          //
    ];
    let mut lib = ShaderLib::new();
    lib.insert("greeting", "HELLO\nEARTH");

    let input = lines.join("\n");
    let _ = expand(&input, Some(&lib));
}

#[test]
fn expand_accepts_well_formed_directives() {
    let lib = greeting_lib();
    let input = ["432 Hello", r#"  /// @include "greeting"   "#, "world"].join("\n");
    assert_eq!(expand(&input, Some(&lib)), "432 Hello\nHELLO\nEARTH\nworld");
    assert_eq!(expand("", None), "");
}

#[test]
fn missing_closing_quote_is_refused() {
    let input = ["432 Hello", "World 123", r#"  /// @include "greeting   "#, "goodbye", "world"].join("\n");
    assert!(!directives_well_formed(&input));
}

#[test]
fn missing_opening_quote_is_refused() {
    let input = ["432 Hello", "World 123", r#"  /// @include greeting"   "#, "goodbye", "world"].join("\n");
    assert!(!directives_well_formed(&input));
}

#[test]
fn missing_quotes_are_refused() {
    let input = ["432 Hello", "World 123", r#"  /// @include greeting   "#, "goodbye", "world"].join("\n");
    assert!(!directives_well_formed(&input));
}

#[test]
fn missing_space_is_refused() {
    let input = ["432 Hello", "World 123", r#"  /// @include"greeting"   "#, "goodbye", "world"].join("\n");
    assert!(!directives_well_formed(&input));
}

#[test]
fn further_malformed_directives_are_refused() {
    assert!(!directives_well_formed("/// @include"));
    assert!(!directives_well_formed("/// @include "));
    assert!(!directives_well_formed("/// @include \""));
    assert!(!directives_well_formed("/// @include\t\"a\""));
    assert!(!directives_well_formed("/// @includes \"a\""));
    assert!(!directives_well_formed("ok\n///@include a\nok"));
    assert!(!directives_well_formed("///   @include \"a\" b"));
}

#[test]
fn well_formed_directives_are_accepted() {
    assert!(directives_well_formed(""));
    assert!(directives_well_formed("\n\n"));
    assert!(directives_well_formed("plain\ntext"));
    assert!(directives_well_formed("/// @include \"a\""));
    assert!(directives_well_formed("///@include \"a\""));
    assert!(directives_well_formed("\t ///   @include    \"a b\"  \r\nnext"));
    assert!(directives_well_formed("/// @include \"\""));
    assert!(directives_well_formed("/// a comment"));
    assert!(directives_well_formed("/// @other thing"));
    assert!(directives_well_formed("// @include nothing"));
    assert!(directives_well_formed("x /// @include nothing"));
    let input = ["432 Hello", "World 123", r#"  /// @include "greeting"   "#, "goodbye", "world"].join("\n");
    assert!(directives_well_formed(&input));
}

#[test]
fn include_without_library_gives_an_empty_line() {
    let output = proc_shader_code("a\n/// @include \"greeting\"\nb", None);
    assert_eq!(output, "a\n\nb");
}

#[test]
fn include_of_unknown_path_gives_an_empty_line() {
    let lib = greeting_lib();
    let output = proc_shader_code("a\n/// @include \"other\"\nb", Some(&lib));
    assert_eq!(output, "a\n\nb");
    let output = proc_shader_code("a\n/// @include \" greeting\"\nb", Some(&lib));
    assert_eq!(output, "a\n\nb");
}

#[test]
fn other_special_comments_give_empty_lines() {
    let lib = greeting_lib();
    let output = proc_shader_code("a\n  /// documentation\nb\n///\n/// @other \"greeting\"", Some(&lib));
    assert_eq!(output, "a\n\nb\n\n");
    let output = proc_shader_code("// plain comment\nx /// not at the start", Some(&lib));
    assert_eq!(output, "// plain comment\nx /// not at the start");
}

#[test]
fn include_is_found_behind_white_space() {
    let lib = greeting_lib();
    let output = proc_shader_code("\u{3000}\t///\u{a0} @include  \t \"greeting\" \u{2003}", Some(&lib));
    assert_eq!(output, "HELLO\nEARTH");
    let output = proc_shader_code("///@include \"greeting\"", Some(&lib));
    assert_eq!(output, "HELLO\nEARTH");
}

#[test]
fn included_source_is_not_expanded_again() {
    let mut lib = ShaderLib::new();
    lib.insert("outer", "/// @include \"inner\"\n/// comment");
    lib.insert("inner", "INNER");
    let output = proc_shader_code("/// @include \"outer\"", Some(&lib));
    assert_eq!(output, "/// @include \"inner\"\n/// comment");
}

#[test]
fn empty_path_is_a_path() {
    let mut lib = ShaderLib::new();
    lib.insert("", "EMPTY");
    assert_eq!(proc_shader_code("/// @include \"\"", Some(&lib)), "EMPTY");
    assert_eq!(proc_shader_code("/// @include \"\"", None), "");
}

#[test]
fn lines_are_joined_as_std_splits_them() {
    let inputs = [
        "",
        "\n",
        "\n\n",
        "a",
        "a\n",
        "a\n\n",
        "\na",
        "a\nb",
        "a\r\nb",
        "a\r\nb\r\n",
        "a\rb\nc",
        "a\r",
        "a\r\r\nb",
        "\r\n",
        "\r\n\r\n",
        "  keep  \n\tindent\t",
        "one\ntwo\nthree\n",
    ];
    for input in inputs {
        let expected = input.lines().collect::<Vec<_>>().join("\n");
        assert_eq!(proc_shader_code(input, None), expected, "{:?}", input);
    }
    assert_eq!(proc_shader_code("a\r\nb\r\n", None), "a\nb");
    assert_eq!(proc_shader_code("a\n\n", None), "a\n");
}

#[test]
fn white_space_is_what_std_says() {
    for code in 0..=0x10FFFFu32 {
        if let Some(c) = char::from_u32(code) {
            assert_eq!(whitespace(c), c.is_whitespace(), "{:x}", code);
        }
    }
    assert!(whitespace(' '));
    assert!(whitespace('\u{3000}'));
    assert!(!whitespace('a'));
    assert!(!whitespace('\u{200B}'));
}

#[test]
fn trimming_is_what_std_does() {
    let inputs = ["", " ", "a", "  a", "a  ", " \t a b \r\n", "\u{a0}x\u{2028}", "\u{200B} x", "   "];
    for input in inputs {
        let chars = chars_of(input);
        assert_eq!(text(&chars), input);
        assert_eq!(text(trim(&chars)), input.trim());
        assert_eq!(text(trim_start(&chars)), input.trim_start());
        assert_eq!(text(trim_end(&chars)), input.trim_end());
    }
}

#[test]
fn strip_prefix_is_what_std_does() {
    let cases = [("", ""), ("abc", ""), ("abc", "a"), ("abc", "ab"), ("abc", "abc"), ("abc", "abcd"), ("abc", "b"), ("", "a"), ("///x", "///")];
    for (input, prefix) in cases {
        let chars = chars_of(input);
        let prefix_chars = chars_of(prefix);
        let rest = strip_prefix(&chars, &prefix_chars).map(text);
        assert_eq!(rest.as_deref(), input.strip_prefix(prefix), "{:?} {:?}", input, prefix);
    }
}

#[test]
fn first_line_is_split_off() {
    let cases = [
        ("a", "a", ""),
        ("a\n", "a", ""),
        ("a\nb", "a", "b"),
        ("a\r\nb\n", "a", "b\n"),
        ("\nb", "", "b"),
        ("\r\nb", "", "b"),
        ("a\rb", "a\rb", ""),
        ("a\r", "a\r", ""),
        ("\r", "\r", ""),
        ("\n", "", ""),
    ];
    for (input, line, rest) in cases {
        let chars = chars_of(input);
        let (first, after) = split_first_line(&chars);
        assert_eq!(text(first), line, "{:?}", input);
        assert_eq!(text(after), rest, "{:?}", input);
    }
}

#[test]
fn handle_include_appends_the_source() {
    let lib = greeting_lib();
    let mut out = chars_of("so far ");
    handle_include(&mut out, &chars_of("\"greeting\""), Some(&lib));
    assert_eq!(text(&out), "so far HELLO\nEARTH");
    handle_include(&mut out, &chars_of("\"unknown\""), Some(&lib));
    assert_eq!(text(&out), "so far HELLO\nEARTH");
    handle_include(&mut out, &chars_of("\"greeting\""), None);
    assert_eq!(text(&out), "so far HELLO\nEARTH");
    handle_include(&mut out, &chars_of("\"\""), Some(&lib));
    assert_eq!(text(&out), "so far HELLO\nEARTH");
}

#[test]
fn library_keeps_the_last_source_of_a_path() {
    let mut lib = ShaderLib::new();
    assert!(lib.get("a").is_none());
    lib.insert("a", "1");
    lib.insert("b", "2");
    assert_eq!(lib.get("a"), Some(&ShaderCode("1".into())));
    assert_eq!(lib.get("b"), Some(&ShaderCode("2".into())));
    lib.insert("a", "3");
    assert_eq!(lib.get("a"), Some(&ShaderCode("3".into())));
    assert_eq!(lib.get("b"), Some(&ShaderCode("2".into())));
    assert!(lib.get("c").is_none());
    assert!(lib.get("").is_none());
    assert_eq!(proc_shader_code("/// @include \"a\"", Some(&lib)), "3");
}

#[test]
fn library_copy_is_independent() {
    let mut lib = ShaderLib::new();
    lib.insert("a", "1");
    let mut copy = lib.clone();
    copy.insert("a", "2");
    copy.insert("b", "3");
    assert_eq!(lib.get("a"), Some(&ShaderCode("1".into())));
    assert!(lib.get("b").is_none());
    assert_eq!(copy.get("a"), Some(&ShaderCode("2".into())));
    assert_eq!(copy.get("b"), Some(&ShaderCode("3".into())));
    assert!(ShaderLib::default().get("a").is_none());
}

#[test]
fn default_library_holds_the_vertex_buffer() {
    let code = ShaderCode("struct VertexBuf {}".into());
    let full = default_shaderlib(None, &code);
    assert_eq!(full.get("struct/VertexBuf"), Some(&code));
    assert!(full.get("greeting").is_none());

    let mut lib = greeting_lib();
    lib.insert("struct/VertexBuf", "old");
    let full = default_shaderlib(Some(&lib), &code);
    assert_eq!(full.get("struct/VertexBuf"), Some(&code));
    assert_eq!(full.get("greeting"), Some(&ShaderCode("HELLO\nEARTH".into())));
    assert_eq!(lib.get("struct/VertexBuf"), Some(&ShaderCode("old".into())));
    assert_eq!(
        proc_shader_code("/// @include \"struct/VertexBuf\"\nfn main() {}", Some(&full)),
        "struct VertexBuf {}\nfn main() {}"
    );
}

#[test]
fn paths_and_codes_compare_by_text() {
    assert_eq!(ShaderPath("a".into()), ShaderPath("a".into()));
    assert_ne!(ShaderPath("a".into()), ShaderPath("b".into()));
    assert_eq!(ShaderCode("x".into()).clone(), ShaderCode("x".into()));
}

#[test]
fn output_keeps_characters_beyond_ascii() {
    let mut lib = ShaderLib::new();
    lib.insert("gr\u{fc}\u{df}e", "\u{4f60}\u{597d}");
    let output = proc_shader_code("// \u{e9}\n/// @include \"gr\u{fc}\u{df}e\"\n\u{1F600}", Some(&lib));
    assert_eq!(output, "// \u{e9}\n\u{4f60}\u{597d}\n\u{1F600}");
}
