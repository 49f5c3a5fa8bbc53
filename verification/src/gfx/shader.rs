//! Shader source libraries and the expansion of include directives.
//!
//! A line whose first characters, white space aside, are `///` is a special
//! comment and does not reach the output. A special comment of the form
//! `/// @include "path"` is replaced by the source registered under `path`.

use super::text::{
    after_first_line, chars_of, first_line, lemma_line_end, lines, split_first_line, string_of,
    strip_prefix, trim, trim_start, trimmed, trimmed_start,
};
use vstd::prelude::*;
use vstd::slice::slice_subrange;

verus! {

/// The text of a shader source.
#[derive(Debug, PartialEq, Eq)]
pub struct ShaderCode(pub String);

/// The name under which a shader source is registered.
#[derive(Debug, PartialEq, Eq, Hash)]
pub struct ShaderPath(pub String);

impl Clone for ShaderCode {
    /// The copy holds the same text.
    fn clone(&self) -> (code: Self)
        ensures
            code == *self,
    {
        ShaderCode(self.0.clone())
    }
}

impl Clone for ShaderPath {
    /// The copy holds the same name.
    fn clone(&self) -> (path: Self)
        ensures
            path == *self,
    {
        ShaderPath(self.0.clone())
    }
}

/// Shader sources by path.
#[derive(Debug)]
pub struct ShaderLib {
    /// Where a path occurs more than once, its last entry counts.
    sources: Vec<(ShaderPath, ShaderCode)>,
}

/// The map that a list of entries stands for.
pub open spec fn sources_of(entries: Seq<(ShaderPath, ShaderCode)>) -> Map<Seq<char>, Seq<char>>
    decreases entries.len(),
{
    if entries.len() == 0 {
        Map::empty()
    } else {
        sources_of(entries.drop_last()).insert(entries.last().0.0@, entries.last().1.0@)
    }
}

/// An entry for `path` that no later entry overrides decides what the map
/// holds for `path`, and without any entry the map holds nothing for it.
proof fn lemma_sources_of(entries: Seq<(ShaderPath, ShaderCode)>, path: Seq<char>, upto: int)
    requires
        0 <= upto <= entries.len(),
        forall|j: int| upto <= j < entries.len() ==> (#[trigger] entries[j]).0.0@ != path,
    ensures
        upto == 0 ==> !sources_of(entries).contains_key(path),
        upto > 0 && entries[upto - 1].0.0@ == path ==> sources_of(entries).contains_key(path)
            && sources_of(entries)[path] == entries[upto - 1].1.0@,
    decreases entries.len(),
{
    if entries.len() > upto {
        let front = entries.drop_last();
        assert forall|j: int| upto <= j < front.len() implies (#[trigger] front[j]).0.0@ != path by {
            assert(front[j] == entries[j]);
        }
        lemma_sources_of(front, path, upto);
        assert(entries.last() == entries[entries.len() - 1]);
        if upto > 0 {
            assert(front[upto - 1] == entries[upto - 1]);
        }
    } else if upto > 0 {
        assert(entries.last() == entries[upto - 1]);
    }
}

/// Replacing the last entry for a path replaces what the map holds for it.
proof fn lemma_sources_of_update(
    entries: Seq<(ShaderPath, ShaderCode)>,
    at: int,
    entry: (ShaderPath, ShaderCode),
)
    requires
        0 <= at < entries.len(),
        entries[at].0.0@ == entry.0.0@,
        forall|j: int| at < j < entries.len() ==> (#[trigger] entries[j]).0.0@ != entry.0.0@,
    ensures
        sources_of(entries.update(at, entry)) == sources_of(entries).insert(
            entry.0.0@,
            entry.1.0@,
        ),
    decreases entries.len(),
{
    let updated = entries.update(at, entry);
    let front = entries.drop_last();
    if at == entries.len() - 1 {
        assert(updated.drop_last() == front);
        assert(updated.last() == entry);
        assert(sources_of(updated) == sources_of(entries).insert(entry.0.0@, entry.1.0@));
    } else {
        assert forall|j: int| at < j < front.len() implies (#[trigger] front[j]).0.0@
            != entry.0.0@ by {
            assert(front[j] == entries[j]);
        }
        lemma_sources_of_update(front, at, entry);
        assert(updated.drop_last() == front.update(at, entry));
        assert(updated.last() == entries.last());
        assert(entries.last() == entries[entries.len() - 1]);
        assert(sources_of(updated) == sources_of(entries).insert(entry.0.0@, entry.1.0@));
    }
}

impl View for ShaderLib {
    type V = Map<Seq<char>, Seq<char>>;

    /// The sources by path, as texts.
    closed spec fn view(&self) -> Map<Seq<char>, Seq<char>> {
        sources_of(self.sources@)
    }
}

impl ShaderLib {
    /// Creates a library without sources.
    #[inline]
    pub fn new() -> (lib: Self)
        ensures
            lib@ == Map::<Seq<char>, Seq<char>>::empty(),
    {
        Self { sources: Vec::new() }
    }

    /// Finds the entry that counts for `path`.
    fn find(&self, path: &String) -> (found: Option<usize>)
        ensures
            found is Some <==> self@.contains_key(path@),
            found matches Some(at) ==> at < self.sources@.len() && self.sources@[at as int].0.0@
                == path@ && self.sources@[at as int].1.0@ == self@[path@] && forall|j: int|
                at < j < self.sources@.len() ==> (#[trigger] self.sources@[j]).0.0@ != path@,
    {
        let mut at: usize = self.sources.len();
        while at > 0
            invariant
                at <= self.sources@.len(),
                forall|j: int| at <= j < self.sources@.len() ==> (#[trigger] self.sources@[j]).0.0@
                    != path@,
            decreases at,
        {
            if self.sources[at - 1].0.0 == *path {
                proof {
                    lemma_sources_of(self.sources@, path@, at as int);
                }
                return Some(at - 1);
            }
            at -= 1;
        }
        proof {
            lemma_sources_of(self.sources@, path@, 0);
        }
        None
    }

    /// Registers `code` under `path`, in place of what was registered there.
    #[inline]
    pub fn insert(&mut self, path: &str, code: &str)
        ensures
            final(self)@ == old(self)@.insert(path@, code@),
    {
        let path: String = path.to_owned();
        let code: String = code.to_owned();
        match self.find(&path) {
            Some(at) => {
                proof {
                    lemma_sources_of_update(
                        self.sources@,
                        at as int,
                        (ShaderPath(path), ShaderCode(code)),
                    );
                }
                self.sources.set(at, (ShaderPath(path), ShaderCode(code)));
            },
            None => {
                self.sources.push((ShaderPath(path), ShaderCode(code)));
                assert(self.sources@.drop_last() == old(self).sources@);
            },
        }
    }

    /// Returns the source registered under `path`, if there is one.
    pub fn get(&self, path: &str) -> (code: Option<&ShaderCode>)
        ensures
            code is Some <==> self@.contains_key(path@),
            code matches Some(c) ==> c.0@ == self@[path@],
    {
        let path: String = path.to_owned();
        match self.find(&path) {
            Some(at) => Some(&self.sources[at].1),
            None => None,
        }
    }
}

impl Clone for ShaderLib {
    /// The copy holds the same sources.
    fn clone(&self) -> (lib: Self)
        ensures
            lib@ == self@,
    {
        let mut sources: Vec<(ShaderPath, ShaderCode)> = Vec::new();
        let n = self.sources.len();
        let mut i: usize = 0;
        while i < n
            invariant
                n == self.sources@.len(),
                i <= n,
                sources_of(sources@) == sources_of(self.sources@.take(i as int)),
            decreases n - i,
        {
            let ghost copied = sources@;
            let path = self.sources[i].0.clone();
            let code = self.sources[i].1.clone();
            sources.push((path, code));
            proof {
                let upto = self.sources@.take(i + 1);
                assert(upto.drop_last() == self.sources@.take(i as int));
                assert(sources@.drop_last() == copied);
            }
            i += 1;
        }
        assert(self.sources@.take(n as int) == self.sources@);
        Self { sources }
    }
}

impl Default for ShaderLib {
    /// The library without sources.
    #[inline]
    fn default() -> (lib: Self)
        ensures
            lib@ == Map::<Seq<char>, Seq<char>>::empty(),
    {
        Self::new()
    }
}

/// The sources that an optional library holds: none where there is no library.
pub open spec fn sources_in(lib: Option<&ShaderLib>) -> Map<Seq<char>, Seq<char>> {
    match lib {
        Some(lib) => lib@,
        None => Map::empty(),
    }
}

/// The path under which the declaration of the vertex buffer is registered.
pub open spec fn vertex_buf_path() -> Seq<char> {
    "struct/VertexBuf"@
}

/// Returns the library that shader modules are built with: a copy of `lib`,
/// or an empty library where there is none, with the declaration of the
/// vertex buffer registered under `struct/VertexBuf`.
pub fn default_shaderlib(lib: Option<&ShaderLib>, vertex_buf: &ShaderCode) -> (full: ShaderLib)
    ensures
        full@ == sources_in(lib).insert(vertex_buf_path(), vertex_buf.0@),
{
    let mut full = match lib {
        Some(lib) => lib.clone(),
        None => ShaderLib::new(),
    };
    full.insert("struct/VertexBuf", vertex_buf.0.as_str());
    full
}

/// The characters `///`, which open a special comment.
pub open spec fn special_comment() -> Seq<char> {
    seq!['/', '/', '/']
}

/// The characters `@include`, which open an include directive.
pub open spec fn include_token() -> Seq<char> {
    seq!['@', 'i', 'n', 'c', 'l', 'u', 'd', 'e']
}

/// What follows `///` in a special comment, without the white space it
/// starts with; `None` where the line is no special comment.
pub open spec fn comment_body(line: Seq<char>) -> Option<Seq<char>> {
    let text = trimmed(line);
    if special_comment().is_prefix_of(text) {
        Some(trimmed_start(text.skip(3)))
    } else {
        None
    }
}

/// What follows `@include` in an include directive, as it is written;
/// `None` where the line is no include directive.
pub open spec fn include_argument(line: Seq<char>) -> Option<Seq<char>> {
    match comment_body(line) {
        Some(body) => if include_token().is_prefix_of(body) {
            Some(body.skip(8))
        } else {
            None
        },
        None => None,
    }
}

/// The text stands between double quotes.
pub open spec fn quoted(text: Seq<char>) -> bool {
    text.len() >= 2 && text[0] == '"' && text.last() == '"'
}

/// The line is no include directive, or it is one with a space behind
/// `@include` and then a path between double quotes.
pub open spec fn line_ok(line: Seq<char>) -> bool {
    match include_argument(line) {
        Some(argument) => argument.len() > 0 && argument[0] == ' ' && quoted(trimmed(argument)),
        None => true,
    }
}

/// Every include directive of `code` is well formed.
pub open spec fn directives_ok(code: Seq<char>) -> bool {
    forall|i: int| 0 <= i < lines(code).len() ==> line_ok(#[trigger] lines(code)[i])
}

/// The source that a quoted path names, or nothing where no source is
/// registered under the path.
pub open spec fn included(directive: Seq<char>, sources: Map<Seq<char>, Seq<char>>) -> Seq<char> {
    let path = directive.subrange(1, directive.len() - 1);
    if sources.contains_key(path) {
        sources[path]
    } else {
        Seq::empty()
    }
}

/// What a line contributes to the output: an include directive the source it
/// names, another special comment nothing, any other line itself.
pub open spec fn expanded_line(line: Seq<char>, sources: Map<Seq<char>, Seq<char>>) -> Seq<char> {
    match include_argument(line) {
        Some(argument) => included(trimmed(argument), sources),
        None => if comment_body(line) is Some {
            Seq::empty()
        } else {
            line
        },
    }
}

/// The lines, each expanded, with a line feed between each two.
pub open spec fn expanded_lines(all: Seq<Seq<char>>, sources: Map<Seq<char>, Seq<char>>) -> Seq<
    char,
>
    decreases all.len(),
{
    if all.len() == 0 {
        Seq::empty()
    } else if all.len() == 1 {
        expanded_line(all[0], sources)
    } else {
        expanded_line(all[0], sources) + seq!['\n'] + expanded_lines(all.drop_first(), sources)
    }
}

/// The shader code with its include directives expanded.
pub open spec fn expanded(code: Seq<char>, sources: Map<Seq<char>, Seq<char>>) -> Seq<char> {
    expanded_lines(lines(code), sources)
}

/// The lines with a line feed between each two.
pub open spec fn joined(all: Seq<Seq<char>>) -> Seq<char>
    decreases all.len(),
{
    if all.len() == 0 {
        Seq::empty()
    } else if all.len() == 1 {
        all[0]
    } else {
        all[0] + seq!['\n'] + joined(all.drop_first())
    }
}

/// Lines without special comments pass through as they are, whatever the
/// library holds.
pub proof fn lemma_plain_lines_pass(all: Seq<Seq<char>>, sources: Map<Seq<char>, Seq<char>>)
    requires
        forall|i: int| 0 <= i < all.len() ==> comment_body(#[trigger] all[i]) is None,
    ensures
        expanded_lines(all, sources) == joined(all),
    decreases all.len(),
{
    if all.len() > 0 {
        assert(comment_body(all[0]) is None);
        if all.len() > 1 {
            let rest = all.drop_first();
            assert forall|i: int| 0 <= i < rest.len() implies comment_body(#[trigger] rest[i]) is None by {
                assert(rest[i] == all[i + 1]);
            }
            lemma_plain_lines_pass(rest, sources);
        }
    }
}

/// Returns the characters `///`.
fn special_comment_chars() -> (token: Vec<char>)
    ensures
        token@ == special_comment(),
{
    let token = vec!['/', '/', '/'];
    assert(token@ == special_comment());
    token
}

/// Returns the characters `@include`.
fn include_token_chars() -> (token: Vec<char>)
    ensures
        token@ == include_token(),
{
    let token = vec!['@', 'i', 'n', 'c', 'l', 'u', 'd', 'e'];
    assert(token@ == include_token());
    token
}

/// If the line is an include directive, returns what follows `@include`.
fn argument_of<'a>(line: &'a [char]) -> (argument: Option<&'a [char]>)
    ensures
        argument is Some <==> include_argument(line@) is Some,
        argument matches Some(a) ==> a@ == include_argument(line@)->0,
{
    let special = special_comment_chars();
    let token = include_token_chars();
    match strip_prefix(trim(line), special.as_slice()) {
        Some(body) => strip_prefix(trim_start(body), token.as_slice()),
        None => None,
    }
}

/// Tells whether the line is a special comment.
fn is_special_comment(line: &[char]) -> (special: bool)
    ensures
        special == comment_body(line@) is Some,
{
    let token = special_comment_chars();
    strip_prefix(trim(line), token.as_slice()).is_some()
}

/// Tells whether the text stands between double quotes.
fn is_quoted(text: &[char]) -> (b: bool)
    ensures
        b == quoted(text@),
{
    text.len() >= 2 && text[0] == '"' && text[text.len() - 1] == '"'
}

/// Tells whether the line is no include directive or a well-formed one.
fn is_line_ok(line: &[char]) -> (ok: bool)
    ensures
        ok == line_ok(line@),
{
    match argument_of(line) {
        Some(argument) => argument.len() > 0 && argument[0] == ' ' && is_quoted(trim(argument)),
        None => true,
    }
}

/// Tells whether every include directive of `code` is well formed, that is
/// whether `proc_shader_code` accepts the code.
pub fn directives_well_formed(code: &str) -> (ok: bool)
    ensures
        ok == directives_ok(code@),
{
    let chars = chars_of(code);
    let mut rest: &[char] = chars.as_slice();
    while rest.len() > 0
        invariant
            directives_ok(code@) == directives_ok(rest@),
        decreases rest@.len(),
    {
        let (line, after) = split_first_line(rest);
        proof {
            lemma_lines_unfold(rest@);
        }
        if !is_line_ok(line) {
            assert(lines(rest@)[0] == line@);
            return false;
        }
        proof {
            lemma_directives_ok_step(rest@);
        }
        rest = after;
    }
    true
}

/// The lines of a text that is not empty are its first line and the lines of
/// what follows it.
proof fn lemma_lines_unfold(text: Seq<char>)
    requires
        text.len() > 0,
    ensures
        lines(text) == seq![first_line(text)] + lines(after_first_line(text)),
        lines(text).len() == 1 + lines(after_first_line(text)).len(),
        lines(text)[0] == first_line(text),
        lines(text).drop_first() == lines(after_first_line(text)),
        lines(after_first_line(text)).len() > 0 <==> after_first_line(text).len() > 0,
{
    lemma_line_end(text);
    let after = after_first_line(text);
    if after.len() > 0 {
        lemma_line_end(after);
        assert(lines(after).len() > 0);
    }
}

/// A text's directives are well formed if those of its first line and of the
/// rest are.
proof fn lemma_directives_ok_step(text: Seq<char>)
    requires
        text.len() > 0,
    ensures
        directives_ok(text) <==> line_ok(first_line(text)) && directives_ok(
            after_first_line(text),
        ),
{
    lemma_lines_unfold(text);
    let all = lines(text);
    let rest = lines(after_first_line(text));
    if directives_ok(text) {
        assert(line_ok(all[0]));
        assert forall|i: int| 0 <= i < rest.len() implies line_ok(#[trigger] rest[i]) by {
            assert(rest[i] == all[i + 1]);
        }
    }
    if line_ok(first_line(text)) && directives_ok(after_first_line(text)) {
        assert forall|i: int| 0 <= i < all.len() implies line_ok(#[trigger] all[i]) by {
            if i > 0 {
                assert(all[i] == rest[i - 1]);
            }
        }
    }
}

/// Appends to `out` the source that the quoted path `directive` names in
/// `lib`. Appends nothing where there is no library or no such source.
pub fn handle_include(out: &mut Vec<char>, directive: &[char], lib: Option<&ShaderLib>)
    requires
        quoted(directive@),
    ensures
        final(out)@ == old(out)@ + included(directive@, sources_in(lib)),
{
    let path = string_of(slice_subrange(directive, 1, directive.len() - 1));
    let Some(lib) = lib else {
        assert(old(out)@ + Seq::<char>::empty() == old(out)@);
        return ;
    };
    match lib.get(path.as_str()) {
        Some(source) => {
            let source = chars_of(source.0.as_str());
            out.extend_from_slice(source.as_slice());
        },
        None => {
            assert(old(out)@ + Seq::<char>::empty() == old(out)@);
        },
    }
}

/// Appends to `out` what the line contributes to the output.
fn expand_line(out: &mut Vec<char>, line: &[char], lib: Option<&ShaderLib>)
    requires
        line_ok(line@),
    ensures
        final(out)@ == old(out)@ + expanded_line(line@, sources_in(lib)),
{
    match argument_of(line) {
        Some(argument) => {
            handle_include(out, trim(argument), lib);
        },
        None => {
            if is_special_comment(line) {
                assert(old(out)@ + Seq::<char>::empty() == old(out)@);
            } else {
                out.extend_from_slice(line);
            }
        },
    }
}

/// Expands the include directives of `code`.
///
/// The output holds the lines of `code` with a line feed between each two.
/// A line of the form `/// @include "path"` is replaced by the source that
/// `lib` holds under `path`, or by an empty line where it holds none; any
/// other line that starts with `///` is replaced by an empty line.
/// The directives must be well formed, which `directives_well_formed` tests.
pub fn proc_shader_code(code: &str, lib: Option<&ShaderLib>) -> (out: String)
    requires
        directives_ok(code@),
    ensures
        out@ == expanded(code@, sources_in(lib)),
{
    let chars = chars_of(code);
    let mut rest: &[char] = chars.as_slice();
    let mut out: Vec<char> = Vec::new();
    assert(out@ + expanded(rest@, sources_in(lib)) == expanded(code@, sources_in(lib)));
    while rest.len() > 0
        invariant
            directives_ok(rest@),
            out@ + expanded(rest@, sources_in(lib)) == expanded(code@, sources_in(lib)),
        decreases rest@.len(),
    {
        let ghost done = out@;
        let (line, after) = split_first_line(rest);
        proof {
            lemma_lines_unfold(rest@);
            lemma_directives_ok_step(rest@);
        }
        expand_line(&mut out, line, lib);
        if after.len() > 0 {
            out.push('\n');
        }
        proof {
            let sources = sources_in(lib);
            let this = expanded_line(line@, sources);
            if after@.len() > 0 {
                assert(expanded(rest@, sources) == this + seq!['\n'] + expanded(after@, sources));
                assert(out@ == done + this + seq!['\n']);
                assert(out@ + expanded(after@, sources) == done + (this + seq!['\n'] + expanded(
                    after@,
                    sources,
                )));
            } else {
                assert(lines(after@).len() == 0);
                assert(expanded(rest@, sources) == this);
                assert(expanded(after@, sources) == Seq::<char>::empty());
                assert(out@ + expanded(after@, sources) == done + this);
            }
        }
        rest = after;
    }
    assert(expanded(rest@, sources_in(lib)) == Seq::<char>::empty());
    assert(out@ + Seq::<char>::empty() == out@);
    string_of(out.as_slice())
}

} // verus!
