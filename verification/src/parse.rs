//! A minimal reader for template definitions in engine source text: a
//! sequence of `(deftemplate <name> (slot <name>) ...)` forms, with
//! whitespace between tokens. Anything else in the source is a parse
//! failure: only template definitions are in scope for this layer.

use crate::{TemplateDef, TemplateModel};
use vstd::prelude::*;

verus! {

/// Whitespace between tokens.
pub open spec fn is_space_char(c: char) -> bool {
    c == ' ' || c == '\n' || c == '\t' || c == '\r'
}

/// A character that may stand in an atom (a name or a keyword).
pub open spec fn is_atom_char(c: char) -> bool {
    !is_space_char(c) && c != '(' && c != ')'
}

/// Mathematical model of one token.
#[verifier::ext_equal]
pub enum TokenModel {
    Open,
    Close,
    Atom(Seq<char>),
}

pub(crate) enum Token {
    Open,
    Close,
    Atom(String),
}

impl View for Token {
    type V = TokenModel;

    closed spec fn view(&self) -> TokenModel {
        match self {
            Token::Open => TokenModel::Open,
            Token::Close => TokenModel::Close,
            Token::Atom(s) => TokenModel::Atom(s@),
        }
    }
}

/// The views of a list of tokens.
pub(crate) open spec fn token_views(ts: Seq<Token>) -> Seq<TokenModel> {
    ts.map_values(|t: Token| t@)
}

/// The views of a list of parsed template definitions.
pub(crate) open spec fn template_views(ts: Seq<TemplateDef>) -> Seq<TemplateModel> {
    ts.map_values(|t: TemplateDef| t@)
}

/// The length of the atom starting at position `i`: the number of
/// consecutive atom characters.
pub open spec fn atom_len(s: Seq<char>, i: int) -> int
    decreases s.len() - i,
{
    if i < 0 || i >= s.len() || !is_atom_char(s[i]) {
        0
    } else {
        1 + atom_len(s, i + 1)
    }
}

proof fn lemma_atom_len_bounds(s: Seq<char>, i: int)
    requires
        0 <= i <= s.len(),
    ensures
        0 <= atom_len(s, i),
        i + atom_len(s, i) <= s.len(),
    decreases s.len() - i,
{
    if i < s.len() && is_atom_char(s[i]) {
        lemma_atom_len_bounds(s, i + 1);
    }
}

proof fn lemma_atom_len_is(s: Seq<char>, i: int, j: int)
    requires
        0 <= i <= j <= s.len(),
        forall|k: int| i <= k < j ==> is_atom_char(s[k]),
        j == s.len() || !is_atom_char(s[j]),
    ensures
        atom_len(s, i) == j - i,
    decreases j - i,
{
    if i < j {
        lemma_atom_len_is(s, i + 1, j);
    }
}

/// The tokens of the source text from position `i` on: whitespace separates
/// tokens; `(` and `)` are tokens of their own; a maximal run of other
/// characters is one atom.
pub open spec fn tokenize_at(s: Seq<char>, i: int) -> Seq<TokenModel>
    decreases s.len() - i,
        when 0 <= i <= s.len()
        via tokenize_at_decreases
{
    if i >= s.len() {
        Seq::empty()
    } else if is_space_char(s[i]) {
        tokenize_at(s, i + 1)
    } else if s[i] == '(' {
        seq![TokenModel::Open] + tokenize_at(s, i + 1)
    } else if s[i] == ')' {
        seq![TokenModel::Close] + tokenize_at(s, i + 1)
    } else {
        let n = atom_len(s, i);
        seq![TokenModel::Atom(s.subrange(i, i + n))] + tokenize_at(s, i + n)
    }
}

#[via_fn]
proof fn tokenize_at_decreases(s: Seq<char>, i: int) {
    if 0 <= i < s.len() && !is_space_char(s[i]) && s[i] != '(' && s[i] != ')' {
        lemma_atom_len_bounds(s, i);
        lemma_atom_len_bounds(s, i + 1);
    }
}

/// The tokens of the whole source text.
pub open spec fn tokenize(s: Seq<char>) -> Seq<TokenModel> {
    tokenize_at(s, 0)
}

/// The `(slot <name>)` groups from token position `i` on: their names in
/// order, and the position of the first token after them.
pub open spec fn parse_slots(toks: Seq<TokenModel>, i: int) -> (Seq<Seq<char>>, int)
    decreases toks.len() - i,
        when 0 <= i <= toks.len()
{
    if i + 4 <= toks.len() && toks[i] is Open && toks[i + 1] == TokenModel::Atom("slot"@) && toks[i
        + 2] is Atom && toks[i + 3] is Close {
        let rest = parse_slots(toks, i + 4);
        (seq![toks[i + 2]->Atom_0] + rest.0, rest.1)
    } else {
        (Seq::empty(), i)
    }
}

proof fn lemma_parse_slots_bounds(toks: Seq<TokenModel>, i: int)
    requires
        0 <= i <= toks.len(),
    ensures
        i <= parse_slots(toks, i).1 <= toks.len(),
    decreases toks.len() - i,
{
    if i + 4 <= toks.len() && toks[i] is Open && toks[i + 1] == TokenModel::Atom("slot"@) && toks[i
        + 2] is Atom && toks[i + 3] is Close {
        lemma_parse_slots_bounds(toks, i + 4);
    }
}

/// One `(deftemplate <name> <slots...>)` form at token position `i`: the
/// template it defines and the position of the first token after the form,
/// or nothing when no such form starts there.
pub open spec fn parse_form(toks: Seq<TokenModel>, i: int) -> Option<(TemplateModel, int)> {
    if 0 <= i && i + 3 <= toks.len() && toks[i] is Open && toks[i + 1] == TokenModel::Atom(
        "deftemplate"@,
    ) && toks[i + 2] is Atom {
        let slots = parse_slots(toks, i + 3);
        if slots.1 < toks.len() && toks[slots.1] is Close {
            Some((TemplateModel { name: toks[i + 2]->Atom_0, slots: slots.0 }, slots.1 + 1))
        } else {
            None
        }
    } else {
        None
    }
}

/// All forms from token position `i` to the end, or nothing when the tokens
/// are not a sequence of template definitions.
pub open spec fn parse_at(toks: Seq<TokenModel>, i: int) -> Option<Seq<TemplateModel>>
    decreases toks.len() - i,
        when 0 <= i <= toks.len()
        via parse_at_decreases
{
    if i >= toks.len() {
        Some(Seq::empty())
    } else {
        match parse_form(toks, i) {
            None => None,
            Some((t, j)) => match parse_at(toks, j) {
                None => None,
                Some(rest) => Some(seq![t] + rest),
            },
        }
    }
}

#[via_fn]
proof fn parse_at_decreases(toks: Seq<TokenModel>, i: int) {
    if 0 <= i < toks.len() && parse_form(toks, i) is Some {
        lemma_parse_slots_bounds(toks, i + 3);
    }
}

/// The template definitions the source text holds, or nothing when it is not
/// a sequence of `deftemplate` forms.
pub open spec fn parse_templates(s: Seq<char>) -> Option<Seq<TemplateModel>> {
    parse_at(tokenize(s), 0)
}

fn space_char(c: char) -> (r: bool)
    ensures
        r == is_space_char(c),
{
    c == ' ' || c == '\n' || c == '\t' || c == '\r'
}

fn atom_char(c: char) -> (r: bool)
    ensures
        r == is_atom_char(c),
{
    !space_char(c) && c != '(' && c != ')'
}

/// Splits the source text into tokens.
pub(crate) fn tokenize_exec(s: &str) -> (toks: Vec<Token>)
    ensures
        token_views(toks@) == tokenize(s@),
{
    let n = s.unicode_len();
    let mut toks: Vec<Token> = Vec::new();
    let mut i: usize = 0;
    while i < n
        invariant
            n == s@.len(),
            0 <= i <= n,
            tokenize(s@) == token_views(toks@) + tokenize_at(s@, i as int),
        decreases n - i,
    {
        let ghost views0 = token_views(toks@);
        let c = s.get_char(i);
        if space_char(c) {
            i += 1;
        } else if c == '(' {
            toks.push(Token::Open);
            proof {
                assert(token_views(toks@) =~= views0 + seq![TokenModel::Open]);
                assert(token_views(toks@) + tokenize_at(s@, i + 1) =~= views0 + tokenize_at(
                    s@,
                    i as int,
                ));
            }
            i += 1;
        } else if c == ')' {
            toks.push(Token::Close);
            proof {
                assert(token_views(toks@) =~= views0 + seq![TokenModel::Close]);
                assert(token_views(toks@) + tokenize_at(s@, i + 1) =~= views0 + tokenize_at(
                    s@,
                    i as int,
                ));
            }
            i += 1;
        } else {
            let mut j: usize = i + 1;
            loop
                invariant
                    n == s@.len(),
                    0 <= i < j <= n,
                    forall|k: int| i <= k < j ==> is_atom_char(s@[k]),
                ensures
                    0 <= i < j <= n,
                    forall|k: int| i <= k < j ==> is_atom_char(s@[k]),
                    j == n || !is_atom_char(s@[j as int]),
                decreases n - j,
            {
                if j >= n {
                    break ;
                }
                let cj = s.get_char(j);
                if !atom_char(cj) {
                    break ;
                }
                j += 1;
            }
            proof {
                lemma_atom_len_is(s@, i as int, j as int);
            }
            let atom = s.substring_char(i, j);
            toks.push(Token::Atom(atom.to_owned()));
            proof {
                assert(token_views(toks@) =~= views0 + seq![
                    TokenModel::Atom(s@.subrange(i as int, j as int)),
                ]);
                assert(token_views(toks@) + tokenize_at(s@, j as int) =~= views0 + tokenize_at(
                    s@,
                    i as int,
                ));
            }
            i = j;
        }
    }
    proof {
        assert(tokenize(s@) =~= token_views(toks@));
    }
    toks
}

fn token_is_atom(t: &Token, word: &str) -> (r: bool)
    ensures
        r == (t@ == TokenModel::Atom(word@)),
{
    match t {
        Token::Atom(s) => crate::value::str_eq(s.as_str(), word),
        _ => false,
    }
}

/// Reads the `(slot <name>)` groups from token position `i` on.
fn parse_slots_exec(toks: &Vec<Token>, i: usize) -> (r: (Vec<String>, usize))
    requires
        i <= toks@.len(),
    ensures
        ({
            let s = parse_slots(token_views(toks@), i as int);
            &&& r.0@.map_values(|x: String| x@) == s.0
            &&& r.1 as int == s.1
            &&& i <= r.1 <= toks@.len()
        }),
{
    let ghost tv = token_views(toks@);
    let mut out: Vec<String> = Vec::new();
    let mut j: usize = i;
    loop
        invariant
            tv == token_views(toks@),
            tv.len() == toks@.len(),
            i <= j <= toks@.len(),
            ({
                let s = parse_slots(tv, i as int);
                let rest = parse_slots(tv, j as int);
                &&& s.0 == out@.map_values(|x: String| x@) + rest.0
                &&& s.1 == rest.1
            }),
        decreases toks@.len() - j,
    {
        let ghost out0 = out@.map_values(|x: String| x@);
        if toks.len() >= 4 && j <= toks.len() - 4 {
            let group = match (&toks[j], &toks[j + 3]) {
                (Token::Open, Token::Close) => token_is_atom(&toks[j + 1], "slot"),
                _ => false,
            };
            let name = if group {
                match &toks[j + 2] {
                    Token::Atom(s) => Some(s.clone()),
                    _ => None,
                }
            } else {
                None
            };
            match name {
                Some(nm) => {
                    out.push(nm);
                    proof {
                        assert(out@.map_values(|x: String| x@) =~= out0 + seq![tv[j + 2]->Atom_0]);
                        assert(out0 + (seq![tv[j + 2]->Atom_0] + parse_slots(tv, j + 4).0) =~= (out0
                            + seq![tv[j + 2]->Atom_0]) + parse_slots(tv, j + 4).0);
                        lemma_parse_slots_bounds(tv, j + 4);
                    }
                    j += 4;
                },
                None => {
                    proof {
                        assert(parse_slots(tv, j as int) == (Seq::<Seq<char>>::empty(), j as int));
                        assert(out0 + Seq::<Seq<char>>::empty() =~= out0);
                    }
                    return (out, j);
                },
            }
        } else {
            proof {
                assert(parse_slots(tv, j as int) == (Seq::<Seq<char>>::empty(), j as int));
                assert(out@.map_values(|x: String| x@) + Seq::<Seq<char>>::empty() =~= out@
                    .map_values(|x: String| x@));
            }
            return (out, j);
        }
    }
}

/// Reads one `deftemplate` form at token position `i`.
fn parse_form_exec(toks: &Vec<Token>, i: usize) -> (r: Option<(TemplateDef, usize)>)
    requires
        i <= toks@.len(),
    ensures
        ({
            let s = parse_form(token_views(toks@), i as int);
            match r {
                Some(p) => s matches Some(q) && q.0 == p.0@ && q.1 == p.1 as int && i < p.1
                    <= toks@.len(),
                None => s is None,
            }
        }),
{
    let ghost tv = token_views(toks@);
    if toks.len() >= 3 && i <= toks.len() - 3 {
        let head = match &toks[i] {
            Token::Open => token_is_atom(&toks[i + 1], "deftemplate"),
            _ => false,
        };
        let name = if head {
            match &toks[i + 2] {
                Token::Atom(s) => Some(s.clone()),
                _ => None,
            }
        } else {
            None
        };
        match name {
            Some(nm) => {
                let (slots, j) = parse_slots_exec(toks, i + 3);
                if j < toks.len() {
                    let closed = match &toks[j] {
                        Token::Close => true,
                        _ => false,
                    };
                    if closed {
                        return Some((TemplateDef { name: nm, slots }, j + 1));
                    }
                }
                None
            },
            None => None,
        }
    } else {
        None
    }
}

/// Reads a whole source text's template definitions, or nothing when the
/// source is not a sequence of `deftemplate` forms.
pub(crate) fn parse_exec(toks: &Vec<Token>) -> (r: Option<Vec<TemplateDef>>)
    ensures
        ({
            let s = parse_at(token_views(toks@), 0);
            match r {
                Some(ts) => s == Some(template_views(ts@)),
                None => s is None,
            }
        }),
{
    let ghost tv = token_views(toks@);
    let mut out: Vec<TemplateDef> = Vec::new();
    let mut i: usize = 0;
    while i < toks.len()
        invariant
            tv == token_views(toks@),
            tv.len() == toks@.len(),
            0 <= i <= toks@.len(),
            (match parse_at(tv, i as int) {
                Some(rest) => parse_at(tv, 0) == Some(template_views(out@) + rest),
                None => parse_at(tv, 0) is None,
            }),
        decreases toks@.len() - i,
    {
        let ghost out0 = template_views(out@);
        match parse_form_exec(toks, i) {
            None => {
                return None;
            },
            Some((t, j)) => {
                out.push(t);
                proof {
                    let spec_form = parse_form(tv, i as int).unwrap();
                    assert(template_views(out@) =~= out0 + seq![spec_form.0]);
                    if parse_at(tv, j as int) is Some {
                        let rest = parse_at(tv, j as int).unwrap();
                        assert(out0 + (seq![spec_form.0] + rest) =~= (out0 + seq![spec_form.0])
                            + rest);
                    }
                }
                i = j;
            },
        }
    }
    proof {
        assert(template_views(out@) + Seq::<TemplateModel>::empty() =~= template_views(out@));
    }
    Some(out)
}

} // verus!
