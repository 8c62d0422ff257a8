//! Test commands built from a template: `{}` stands for the test's
//! identifier, and the command splits into words at white space.

use vstd::prelude::*;
use vstd::string::*;

verus! {

/// Why a command could not be built.
#[derive(Debug, Clone, Copy, PartialEq, Eq, Structural)]
pub enum CommandError {
    /// The template holds no `{}`.
    MissingPlaceholder,
    /// The command holds no word.
    EmptyCommand,
}

/// Unicode white space, the characters that `char::is_whitespace` accepts.
pub open spec fn is_space(c: char) -> bool {
    c == '\t' || c == '\n' || c == '\u{0B}' || c == '\u{0C}' || c == '\r' || c == ' ' || c
        == '\u{85}' || c == '\u{A0}' || c == '\u{1680}' || ('\u{2000}' <= c && c <= '\u{200A}')
        || c == '\u{2028}' || c == '\u{2029}' || c == '\u{202F}' || c == '\u{205F}' || c
        == '\u{3000}'
}

/// Whether `c` is white space.
pub fn is_space_char(c: char) -> (r: bool)
    ensures
        r == is_space(c),
{
    c == '\t' || c == '\n' || c == '\u{0B}' || c == '\u{0C}' || c == '\r' || c == ' ' || c
        == '\u{85}' || c == '\u{A0}' || c == '\u{1680}' || ('\u{2000}' <= c && c <= '\u{200A}')
        || c == '\u{2028}' || c == '\u{2029}' || c == '\u{202F}' || c == '\u{205F}' || c
        == '\u{3000}'
}

/// Whether `{}` occurs in `t` at position `i`.
pub open spec fn placeholder_at(t: Seq<char>, i: int) -> bool {
    0 <= i && i + 1 < t.len() && t[i] == '{' && t[i + 1] == '}'
}

/// `t` with each `{}`, read left to right, replaced by `x`.
pub open spec fn filled(t: Seq<char>, x: Seq<char>) -> Seq<char>
    decreases t.len(),
{
    if t.len() == 0 {
        Seq::empty()
    } else if placeholder_at(t, 0) {
        x + filled(t.subrange(2, t.len() as int), x)
    } else {
        seq![t[0]] + filled(t.subrange(1, t.len() as int), x)
    }
}

/// The words of `s`: its longest runs of characters that are not white
/// space, in order.
pub open spec fn words(s: Seq<char>) -> Seq<Seq<char>>
    decreases s.len(),
{
    if s.len() == 0 {
        Seq::empty()
    } else {
        let w = words(s.drop_last());
        let c = s.last();
        if is_space(c) {
            w
        } else if s.len() >= 2 && !is_space(s[s.len() - 2]) {
            w.drop_last().push(w.last().push(c))
        } else {
            w.push(seq![c])
        }
    }
}

/// Fills the template: every `{}` replaced by `test`. Fails on a template
/// without one.
pub fn fill_template(template: &str, test: &str) -> (r: Result<String, CommandError>)
    ensures
        match r {
            Ok(s) => (exists|i: int| placeholder_at(template@, i)) && s@ == filled(template@, test@),
            Err(e) => e == CommandError::MissingPlaceholder && !exists|i: int|
                placeholder_at(template@, i),
        },
{
    let n = template.unicode_len();
    let mut out = String::new();
    let mut found = false;
    let mut i: usize = 0;
    assert(template@.subrange(0, n as int) =~= template@);
    assert(out@ + filled(template@, test@) =~= filled(template@, test@));
    while i < n
        invariant
            n == template@.len(),
            i <= n,
            filled(template@, test@) == out@ + filled(template@.subrange(i as int, n as int), test@),
            found <==> exists|j: int| 0 <= j < i && placeholder_at(template@, j),
            found ==> exists|j: int| placeholder_at(template@, j),
        decreases n - i,
    {
        let ghost rest = template@.subrange(i as int, n as int);
        if i + 1 < n && template.get_char(i) == '{' && template.get_char(i + 1) == '}' {
            assert(placeholder_at(rest, 0));
            assert(rest.subrange(2, rest.len() as int) =~= template@.subrange(i + 2, n as int));
            assert(placeholder_at(template@, i as int));
            out.append(test);
            i = i + 2;
            found = true;
            assert(out@ + filled(template@.subrange(i as int, n as int), test@) =~= filled(
                template@,
                test@,
            ));
            assert forall|j: int| 0 <= j < i && placeholder_at(template@, j) implies found by {}
        } else {
            assert(!placeholder_at(rest, 0));
            assert(rest.subrange(1, rest.len() as int) =~= template@.subrange(i + 1, n as int));
            let one = template.substring_char(i, i + 1);
            assert(one@ =~= seq![rest[0]]);
            out.append(one);
            assert(!placeholder_at(template@, i as int));
            i = i + 1;
            assert(out@ + filled(template@.subrange(i as int, n as int), test@) =~= filled(
                template@,
                test@,
            ));
        }
    }
    assert(template@.subrange(n as int, n as int) =~= Seq::<char>::empty());
    if found {
        Ok(out)
    } else {
        assert forall|j: int| !placeholder_at(template@, j) by {
            if placeholder_at(template@, j) {
                assert(0 <= j < n);
            }
        }
        Err(CommandError::MissingPlaceholder)
    }
}

/// Splits `command` into its words.
pub fn split_words(command: &str) -> (r: Vec<String>)
    ensures
        r.deep_view() == words(command@),
{
    let n = command.unicode_len();
    let mut out: Vec<String> = Vec::new();
    let mut i: usize = 0;
    let mut prev_space = true;
    assert(command@.take(0) =~= Seq::<char>::empty());
    assert(out.deep_view() =~= Seq::<Seq<char>>::empty());
    while i < n
        invariant
            n == command@.len(),
            i <= n,
            out.deep_view() == words(command@.take(i as int)),
            prev_space <==> (i == 0 || is_space(command@[i - 1])),
        decreases n - i,
    {
        let c = command.get_char(i);
        let ghost s = command@.take(i + 1);
        assert(s.drop_last() =~= command@.take(i as int));
        assert(s.last() == c);
        let space = is_space_char(c);
        if !space {
            let one = command.substring_char(i, i + 1);
            assert(one@ =~= seq![c]);
            if prev_space {
                let mut w = String::new();
                w.append(one);
                let ghost before = out.deep_view();
                out.push(w);
                assert(out.deep_view() =~= before.push(seq![c]));
            } else {
                assert(s[s.len() - 2] == command@[i - 1]);
                let ghost before = out.deep_view();
                assert(before.len() > 0);
                let mut w = out.pop().unwrap();
                let ghost wv = w@;
                assert(wv == before.last());
                assert(out.deep_view() =~= before.drop_last());
                w.append(one);
                assert(w@ =~= wv.push(c));
                let ghost mid = out.deep_view();
                out.push(w);
                assert(out.deep_view() =~= mid.push(wv.push(c)));
                assert(out.deep_view() =~= before.drop_last().push(wv.push(c)));
            }
        }
        assert(out.deep_view() == words(s));
        prev_space = space;
        i = i + 1;
    }
    assert(command@.take(n as int) =~= command@);
    out
}

/// The program and the arguments of a command.
pub fn command_parts(command: &str) -> (r: Result<(String, Vec<String>), CommandError>)
    ensures
        match r {
            Ok((p, args)) => words(command@).len() > 0 && p@ == words(command@)[0]
                && args.deep_view() == words(command@).subrange(1, words(command@).len() as int),
            Err(e) => e == CommandError::EmptyCommand && words(command@).len() == 0,
        },
{
    let mut parts = split_words(command);
    if parts.len() == 0 {
        return Err(CommandError::EmptyCommand);
    }
    let ghost all = parts.deep_view();
    let program = parts.remove(0);
    assert(parts.deep_view() =~= all.subrange(1, all.len() as int));
    Ok((program, parts))
}

} // verus!
