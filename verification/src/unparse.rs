//! The canonical unparser and the round-trip law: re-emitting a well-formed
//! expression tree in canonical syntax and parsing that text again yields
//! the same tree, with the whole text consumed.
//!
//! Canonical syntax writes every binary expression fully parenthesized, so
//! grouping is explicit and re-parsing cannot reassociate anything; numbers
//! and names are emitted as their own text. Well-formedness asks exactly
//! what the tokenizer guarantees of the names and literals it produces,
//! restricted to ASCII.

use vstd::prelude::*;

use crate::error::ParseError;
use crate::lexer::{
    is_alnum_char, is_alpha_char, is_digit_char, is_ws_char, num_scan, skip_comment, tok_step,
    word_end, Tok,
};
use crate::parser::{
    op_of_sym, sp_advance, sp_parse_args, sp_parse_binary_rhs, sp_parse_expression,
    sp_parse_identifier_expression, sp_parse_parenthesis, sp_parse_primary, tok_precedence,
    Operator, PState, SpecExpr,
};

verus! {

broadcast use vstd::seq::group_seq_axioms;

// ------------------------------------------------------------------
// Canonical syntax
// ------------------------------------------------------------------

/// The character that names an operator.
pub open spec fn op_char(op: Operator) -> char {
    match op {
        Operator::Plus => '+',
        Operator::Minus => '-',
        Operator::Multiply => '*',
        Operator::Divide => '/',
    }
}

/// The canonical text of an expression: leaves as their own text, every
/// binary expression fully parenthesized, calls as name, `(`,
/// comma-separated arguments, `)`.
pub open spec fn unparse_expr(e: SpecExpr) -> Seq<char>
    decreases e, 1int,
{
    match e {
        SpecExpr::Num(w) => w,
        SpecExpr::Var(n) => n,
        SpecExpr::Bin { operator, lhs, rhs } => seq!['('] + unparse_expr(*lhs) + seq![
            op_char(operator),
        ] + unparse_expr(*rhs) + seq![')'],
        SpecExpr::Call { callee, args } => callee + seq!['('] + args_text(args) + seq![')'],
    }
}

/// The canonical text of a call's argument list, arguments separated by `,`.
pub open spec fn args_text(args: Seq<SpecExpr>) -> Seq<char>
    decreases args, 0int,
{
    if args.len() == 0 {
        Seq::empty()
    } else if args.len() == 1 {
        unparse_expr(args[0])
    } else {
        unparse_expr(args[0]) + seq![','] + args_text(args.subrange(1, args.len() as int))
    }
}

// ------------------------------------------------------------------
// Well-formed trees
// ------------------------------------------------------------------

/// An ASCII identifier as the tokenizer produces it: nonempty, a letter
/// first, alphanumeric throughout, and not a reserved word.
pub open spec fn wf_name(n: Seq<char>) -> bool {
    &&& n.len() > 0
    &&& is_alpha_char(n[0])
    &&& forall|k: int| 0 <= k < n.len() ==> is_alnum_char(#[trigger] n[k]) && (n[k] as u32) < 128
    &&& n != "def"@
    &&& n != "extern"@
}

/// An ASCII numeric literal as the tokenizer produces it: nonempty, a digit
/// first, digits and at most one `.` throughout.
pub open spec fn wf_num(w: Seq<char>) -> bool {
    &&& w.len() > 0
    &&& is_digit_char(w[0])
    &&& forall|k: int|
        0 <= k < w.len() ==> (is_digit_char(#[trigger] w[k]) || w[k] == '.') && (w[k] as u32) < 128
    &&& forall|k: int, m: int| 0 <= k < m < w.len() ==> !(#[trigger] w[k] == '.' && #[trigger] w[m] == '.')
}

/// A well-formed expression tree: every name and literal in it could have
/// come out of the tokenizer.
pub open spec fn wf_expr(e: SpecExpr) -> bool
    decreases e, 1int,
{
    match e {
        SpecExpr::Num(w) => wf_num(w),
        SpecExpr::Var(n) => wf_name(n),
        SpecExpr::Bin { operator, lhs, rhs } => wf_expr(*lhs) && wf_expr(*rhs),
        SpecExpr::Call { callee, args } => wf_name(callee) && wf_args(args),
    }
}

/// Every expression of a sequence is well formed.
pub open spec fn wf_args(args: Seq<SpecExpr>) -> bool
    decreases args, 0int,
{
    if args.len() == 0 {
        true
    } else {
        wf_expr(args[0]) && wf_args(args.subrange(1, args.len() as int))
    }
}

// ------------------------------------------------------------------
// Fuel bounds
// ------------------------------------------------------------------

/// Fuel enough for the spec parser to read `e` from its canonical text.
pub open spec fn esize(e: SpecExpr) -> nat
    decreases e, 1int,
{
    match e {
        SpecExpr::Num(w) => 2,
        SpecExpr::Var(n) => 2,
        SpecExpr::Bin { operator, lhs, rhs } => esize(*lhs) + esize(*rhs) + 4,
        SpecExpr::Call { callee, args } => esize_args(args) + 3,
    }
}

/// Fuel enough for the spec parser to read an argument list.
pub open spec fn esize_args(args: Seq<SpecExpr>) -> nat
    decreases args, 0int,
{
    if args.len() == 0 {
        1
    } else {
        esize(args[0]) + esize_args(args.subrange(1, args.len() as int)) + 2
    }
}

// ------------------------------------------------------------------
// Positions and lookahead states
// ------------------------------------------------------------------

/// The text `f` stands in `s` at position `i`.
pub open spec fn text_at(s: Seq<char>, i: int, f: Seq<char>) -> bool {
    &&& 0 <= i
    &&& i + f.len() <= s.len()
    &&& s.subrange(i, i + f.len()) == f
}

/// The parser state whose lookahead is the one token read from position `i`.
pub open spec fn state_at(s: Seq<char>, i: int) -> Result<PState, ParseError> {
    match tok_step(s, i) {
        Ok((t, j)) => Ok(PState { src: s, at: j, cur: t }),
        Err(e) => Err(e),
    }
}

/// What may follow a primary expression in canonical text: the end of the
/// input, a closing parenthesis, an argument separator, or an operator.
pub open spec fn canonical_follow(s: Seq<char>, j: int) -> bool {
    j == s.len() || (0 <= j < s.len() && (s[j] == ')' || s[j] == ',' || op_of_sym(s[j]) is Some))
}

/// What may follow a full expression in canonical text: the end of the
/// input, a closing parenthesis, or an argument separator — tokens of
/// precedence `0`.
pub open spec fn expr_follow(s: Seq<char>, j: int) -> bool {
    j == s.len() || (0 <= j < s.len() && (s[j] == ')' || s[j] == ','))
}

/// The lookahead state that a canonical follow position yields.
pub open spec fn follow_state(s: Seq<char>, j: int) -> PState {
    if j == s.len() {
        PState { src: s, at: j, cur: Tok::Eof }
    } else {
        PState { src: s, at: j + 1, cur: Tok::Sym(s[j]) }
    }
}

/// At a canonical follow position the tokenizer reads exactly the follow
/// token, which never opens a parenthesis; after a full expression its
/// precedence is `0`.
pub proof fn lemma_follow_state(s: Seq<char>, j: int)
    requires
        0 <= j <= s.len(),
        canonical_follow(s, j),
    ensures
        state_at(s, j) == Ok::<PState, ParseError>(follow_state(s, j)),
        follow_state(s, j).cur != Tok::Sym('('),
        follow_state(s, j).src == s,
        expr_follow(s, j) ==> tok_precedence(follow_state(s, j).cur) == 0,
{
    if j < s.len() {
        let c = s[j];
        assert(!is_ws_char(c));
        assert(!is_alpha_char(c));
        assert(!is_digit_char(c));
        assert(c != '#');
    }
}

// ------------------------------------------------------------------
// Single tokens of canonical text
// ------------------------------------------------------------------

/// A maximal alphanumeric run ends exactly where alphanumeric characters
/// end.
proof fn lemma_word_end_run(s: Seq<char>, i: int, j: int)
    requires
        0 <= i <= j <= s.len(),
        forall|k: int| i <= k < j ==> is_alnum_char(#[trigger] s[k]),
        j == s.len() || !is_alnum_char(s[j]),
    ensures
        word_end(s, i) == j,
    decreases j - i,
{
    if i < j {
        lemma_word_end_run(s, i + 1, j);
    }
}

/// The numeric scan of a run of digits and dots, with fewer than two dots
/// after those already seen, ends exactly where the run ends.
proof fn lemma_num_scan_run(s: Seq<char>, i: int, j: int, seen_dot: bool)
    requires
        0 <= i <= j <= s.len(),
        forall|k: int| i <= k < j ==> is_digit_char(#[trigger] s[k]) || s[k] == '.',
        seen_dot ==> forall|k: int| i <= k < j ==> #[trigger] s[k] != '.',
        forall|k: int, m: int| i <= k < m < j ==> !(#[trigger] s[k] == '.' && #[trigger] s[m] == '.'),
        j == s.len() || !(is_digit_char(s[j]) || s[j] == '.'),
    ensures
        num_scan(s, i, seen_dot) == Ok::<int, ParseError>(j),
    decreases j - i,
{
    if i < j {
        if s[i] == '.' {
            assert(forall|k: int| i + 1 <= k < j ==> #[trigger] s[k] != '.');
            lemma_num_scan_run(s, i + 1, j, true);
        } else {
            lemma_num_scan_run(s, i + 1, j, seen_dot);
        }
    }
}

/// Characters of a text fragment, read through the whole input.
proof fn lemma_text_at_chars(s: Seq<char>, i: int, f: Seq<char>)
    requires
        text_at(s, i, f),
    ensures
        forall|k: int| i <= k < i + f.len() ==> s[k] == f[k - i],
{
    assert forall|k: int| i <= k < i + f.len() implies s[k] == f[k - i] by {
        assert(s.subrange(i, i + f.len() as int)[k - i] == s[k]);
    }
}

/// At a well-formed name, the tokenizer reads exactly the identifier token
/// of that name.
proof fn lemma_name_token(s: Seq<char>, i: int, n: Seq<char>)
    requires
        wf_name(n),
        text_at(s, i, n),
        i + n.len() == s.len() || !is_alnum_char(s[i + n.len()]),
    ensures
        tok_step(s, i) == Ok::<(Tok, int), ParseError>((Tok::Ident(n), i + n.len())),
{
    let j = i + n.len() as int;
    lemma_text_at_chars(s, i, n);
    assert(s[i] == n[0]);
    assert(is_alpha_char(s[i]) && (s[i] as u32) < 128);
    assert(!is_ws_char(s[i]));
    lemma_word_end_run(s, i, j);
    assert(s.subrange(i, j) == n);
}

/// At a well-formed numeric literal, the tokenizer reads exactly the number
/// token of that text.
proof fn lemma_num_token(s: Seq<char>, i: int, w: Seq<char>)
    requires
        wf_num(w),
        text_at(s, i, w),
        i + w.len() == s.len() || (!is_alnum_char(s[i + w.len()]) && s[i + w.len()] != '.'),
    ensures
        tok_step(s, i) == Ok::<(Tok, int), ParseError>((Tok::Num(w), i + w.len())),
{
    let j = i + w.len() as int;
    lemma_text_at_chars(s, i, w);
    assert(s[i] == w[0]);
    assert(is_digit_char(s[i]) && (s[i] as u32) < 128);
    assert(!is_ws_char(s[i]));
    assert(!is_alpha_char(s[i]));
    assert(forall|k: int| i <= k < j ==> is_digit_char(#[trigger] s[k]) || s[k] == '.');
    assert forall|k: int, m: int| i <= k < m < j implies !(#[trigger] s[k] == '.'
        && #[trigger] s[m] == '.') by {
        assert(s[k] == w[k - i] && s[m] == w[m - i]);
    }
    lemma_num_scan_run(s, i, j, false);
    assert(s.subrange(i, j) == w);
}

/// Whether a character is one of the symbols canonical text uses.
pub open spec fn is_canonical_sym(c: char) -> bool {
    c == '(' || c == ')' || c == ',' || op_of_sym(c) is Some
}

/// At a canonical symbol character, the tokenizer reads exactly that one
/// symbol token.
proof fn lemma_sym_token(s: Seq<char>, i: int)
    requires
        0 <= i < s.len(),
        is_canonical_sym(s[i]),
    ensures
        tok_step(s, i) == Ok::<(Tok, int), ParseError>((Tok::Sym(s[i]), i + 1)),
{
    let c = s[i];
    assert(!is_ws_char(c));
    assert(!is_alpha_char(c));
    assert(!is_digit_char(c));
    assert(c != '#');
}

// ------------------------------------------------------------------
// The round trip
// ------------------------------------------------------------------

/// The canonical text inside a binary expression's parentheses; for any
/// other tree, its whole canonical text.
pub open spec fn body_text(e: SpecExpr) -> Seq<char> {
    match e {
        SpecExpr::Bin { operator, lhs, rhs } => unparse_expr(*lhs) + seq![op_char(operator)]
            + unparse_expr(*rhs),
        _ => unparse_expr(e),
    }
}

/// Fuel enough to parse a tree's body text as a full expression.
pub open spec fn ebsize(e: SpecExpr) -> nat {
    match e {
        SpecExpr::Bin { operator, lhs, rhs } => esize(*lhs) + esize(*rhs) + 2,
        _ => esize(e) + 1,
    }
}

/// The canonical text of a well-formed tree is never empty.
proof fn lemma_unparse_len_pos(e: SpecExpr)
    requires
        wf_expr(e),
    ensures
        unparse_expr(e).len() >= 1,
{
}

/// A text that stands somewhere splits into its two parts.
proof fn lemma_text_at_concat(s: Seq<char>, i: int, a: Seq<char>, b: Seq<char>)
    requires
        text_at(s, i, a + b),
    ensures
        text_at(s, i, a),
        text_at(s, i + a.len(), b),
{
    lemma_text_at_chars(s, i, a + b);
    assert(s.subrange(i, i + a.len() as int) =~= a);
    assert(s.subrange(i + a.len(), i + a.len() + b.len() as int) =~= b);
}

/// Parsing a primary expression at the canonical text of a well-formed
/// tree yields exactly that tree, the lookahead then holding the follow
/// token.
#[verifier::rlimit(60)]
pub proof fn lemma_parse_primary_unparse(s: Seq<char>, i: int, e: SpecExpr, fuel: nat)
    requires
        wf_expr(e),
        text_at(s, i, unparse_expr(e)),
        canonical_follow(s, i + unparse_expr(e).len()),
        fuel >= esize(e),
    ensures
        ({
            let j = i + unparse_expr(e).len() as int;
            match state_at(s, i) {
                Ok(p0) => p0.cur != Tok::Sym(')') && sp_parse_primary(p0, fuel) == Ok::<
                    (SpecExpr, PState),
                    ParseError,
                >((e, follow_state(s, j))),
                Err(_) => false,
            }
        }),
    decreases unparse_expr(e).len(), 0nat,
{
    let j = i + unparse_expr(e).len() as int;
    lemma_follow_state(s, j);
    match e {
        SpecExpr::Num(w) => {
            lemma_num_token(s, i, w);
        },
        SpecExpr::Var(n) => {
            lemma_name_token(s, i, n);
        },
        SpecExpr::Bin { operator, lhs, rhs } => {
            lemma_unparse_len_pos(*lhs);
            lemma_unparse_len_pos(*rhs);
            let body = body_text(e);
            assert(unparse_expr(e) =~= seq!['('] + (body + seq![')']));
            lemma_text_at_concat(s, i, seq!['('], body + seq![')']);
            lemma_text_at_concat(s, i + 1, body, seq![')']);
            lemma_text_at_chars(s, i, unparse_expr(e));
            assert(s[i] == '(');
            assert(s[j - 1] == ')');
            lemma_sym_token(s, i);
            lemma_parse_body_unparse(s, i + 1, e, (fuel - 2) as nat);
        },
        SpecExpr::Call { callee, args } => {
            let at = args_text(args);
            let i_open = i + callee.len() as int;
            let i_args = i_open + 1;
            let j_close = i_args + at.len() as int;
            assert(unparse_expr(e) =~= callee + (seq!['('] + (at + seq![')'])));
            lemma_text_at_concat(s, i, callee, seq!['('] + (at + seq![')']));
            lemma_text_at_concat(s, i_open, seq!['('], at + seq![')']);
            lemma_text_at_concat(s, i_args, at, seq![')']);
            lemma_text_at_chars(s, i_open, seq!['(']);
            lemma_text_at_chars(s, j_close, seq![')']);
            assert(s[i_open] == '(');
            assert(s[j_close] == ')');
            lemma_name_token(s, i, callee);
            lemma_sym_token(s, i_open);
            if args.len() == 0 {
                lemma_sym_token(s, i_args);
                assert(args =~= Seq::<SpecExpr>::empty());
            } else {
                lemma_parse_args_unparse(s, i_args, callee, Seq::empty(), args, (fuel - 2) as nat);
                assert(Seq::<SpecExpr>::empty() + args =~= args);
            }
        },
    }
}

/// Parsing a full expression at the canonical text of a well-formed tree,
/// with a precedence-`0` token following, yields exactly that tree.
pub proof fn lemma_parse_expression_unparse(s: Seq<char>, i: int, e: SpecExpr, fuel: nat)
    requires
        wf_expr(e),
        text_at(s, i, unparse_expr(e)),
        expr_follow(s, i + unparse_expr(e).len()),
        fuel >= esize(e) + 1,
    ensures
        ({
            let j = i + unparse_expr(e).len() as int;
            state_at(s, i) matches Ok(p0) && p0.cur != Tok::Sym(')') && sp_parse_expression(
                p0,
                fuel,
            ) == Ok::<(SpecExpr, PState), ParseError>((e, follow_state(s, j)))
        }),
    decreases unparse_expr(e).len(), 1nat,
{
    let j = i + unparse_expr(e).len() as int;
    lemma_parse_primary_unparse(s, i, e, (fuel - 1) as nat);
    lemma_follow_state(s, j);
}

/// Parsing a full expression at a well-formed tree's body text, with a
/// precedence-`0` token following, yields exactly that tree: inside its
/// parentheses a binary expression reads back as itself.
proof fn lemma_parse_body_unparse(s: Seq<char>, i: int, e: SpecExpr, fuel: nat)
    requires
        wf_expr(e),
        text_at(s, i, body_text(e)),
        expr_follow(s, i + body_text(e).len()),
        fuel >= ebsize(e),
    ensures
        ({
            let j = i + body_text(e).len() as int;
            state_at(s, i) matches Ok(p0) && sp_parse_expression(p0, fuel) == Ok::<
                (SpecExpr, PState),
                ParseError,
            >((e, follow_state(s, j)))
        }),
    decreases body_text(e).len(), 2nat,
{
    let j = i + body_text(e).len() as int;
    match e {
        SpecExpr::Bin { operator, lhs, rhs } => {
            lemma_unparse_len_pos(*lhs);
            lemma_unparse_len_pos(*rhs);
            let lt = unparse_expr(*lhs);
            let rt = unparse_expr(*rhs);
            let m = i + lt.len() as int;
            assert(body_text(e) =~= lt + (seq![op_char(operator)] + rt));
            lemma_text_at_concat(s, i, lt, seq![op_char(operator)] + rt);
            lemma_text_at_concat(s, m, seq![op_char(operator)], rt);
            lemma_text_at_chars(s, m, seq![op_char(operator)]);
            assert(s[m] == op_char(operator));
            assert(op_of_sym(op_char(operator)) == Some(operator));
            lemma_parse_primary_unparse(s, i, *lhs, (fuel - 1) as nat);
            lemma_follow_state(s, m);
            lemma_parse_primary_unparse(s, m + 1, *rhs, (fuel - 2) as nat);
            lemma_follow_state(s, j);
        },
        _ => {
            lemma_parse_expression_unparse(s, i, e, fuel);
        },
    }
}

/// Parsing a call's remaining arguments at their canonical text, with the
/// closing parenthesis right after, appends them to those already read.
proof fn lemma_parse_args_unparse(
    s: Seq<char>,
    i: int,
    callee: Seq<char>,
    acc: Seq<SpecExpr>,
    args: Seq<SpecExpr>,
    fuel: nat,
)
    requires
        args.len() >= 1,
        wf_args(args),
        text_at(s, i, args_text(args)),
        i + args_text(args).len() < s.len(),
        s[i + args_text(args).len()] == ')',
        canonical_follow(s, i + args_text(args).len() + 1),
        fuel >= esize_args(args),
    ensures
        ({
            let j = i + args_text(args).len() as int;
            match state_at(s, i) {
                Ok(p0) => p0.cur != Tok::Sym(')') && sp_parse_args(p0, callee, acc, fuel) == Ok::<
                    (SpecExpr, PState),
                    ParseError,
                >((SpecExpr::Call { callee, args: acc + args }, follow_state(s, j + 1))),
                Err(_) => false,
            }
        }),
    decreases args_text(args).len(), 3nat,
{
    let at = args_text(args);
    let j = i + at.len() as int;
    let a0 = args[0];
    lemma_follow_state(s, j + 1);
    if args.len() == 1 {
        lemma_parse_expression_unparse(s, i, a0, (fuel - 1) as nat);
        lemma_follow_state(s, j);
        assert(acc.push(a0) =~= acc + args);
    } else {
        let rest = args.subrange(1, args.len() as int);
        let m = i + unparse_expr(a0).len() as int;
        assert(at =~= unparse_expr(a0) + (seq![','] + args_text(rest)));
        lemma_text_at_concat(s, i, unparse_expr(a0), seq![','] + args_text(rest));
        lemma_text_at_concat(s, m, seq![','], args_text(rest));
        lemma_text_at_chars(s, m, seq![',']);
        assert(s[m] == ',');
        lemma_parse_expression_unparse(s, i, a0, (fuel - 1) as nat);
        lemma_follow_state(s, m);
        lemma_parse_args_unparse(s, m + 1, callee, acc.push(a0), rest, (fuel - 1) as nat);
        assert(acc.push(a0) + rest =~= acc + args);
    }
}

/// The round-trip law: re-emitting any well-formed expression tree in
/// canonical syntax and parsing that text again yields a structurally
/// identical tree, with the whole text consumed.
pub proof fn lemma_unparse_reparse(e: SpecExpr, fuel: nat)
    requires
        wf_expr(e),
        fuel >= esize(e) + 1,
    ensures
        ({
            let s = unparse_expr(e);
            state_at(s, 0) matches Ok(p0) && sp_parse_expression(p0, fuel) == Ok::<
                (SpecExpr, PState),
                ParseError,
            >((e, PState { src: s, at: s.len() as int, cur: Tok::Eof }))
        }),
{
    let s = unparse_expr(e);
    assert(s.subrange(0, s.len() as int) =~= s);
    lemma_parse_expression_unparse(s, 0, e, fuel);
}

// ------------------------------------------------------------------
// What the parser produces is well formed
// ------------------------------------------------------------------

/// A text of ASCII characters alone.
pub open spec fn ascii_text(s: Seq<char>) -> bool {
    forall|k: int| 0 <= k < s.len() ==> (#[trigger] s[k] as u32) < 128
}

/// The lookahead's name or literal, if it holds one, is well formed.
pub open spec fn cur_wf(p: PState) -> bool {
    match p.cur {
        Tok::Ident(n) => wf_name(n),
        Tok::Num(w) => wf_num(w),
        _ => true,
    }
}

/// Every character of a maximal alphanumeric run is alphanumeric, and the
/// run stays inside the input.
proof fn lemma_word_end_alnum(s: Seq<char>, i: int)
    requires
        0 <= i <= s.len(),
    ensures
        i <= word_end(s, i) <= s.len(),
        forall|k: int| i <= k < word_end(s, i) ==> is_alnum_char(#[trigger] s[k]),
    decreases s.len() - i,
{
    if i < s.len() && is_alnum_char(s[i]) {
        lemma_word_end_alnum(s, i + 1);
    }
}

/// A numeric scan that succeeds saw digits and dots alone, with fewer than
/// two dots beyond those already seen.
proof fn lemma_num_scan_chars(s: Seq<char>, i: int, seen_dot: bool)
    requires
        0 <= i <= s.len(),
    ensures
        match num_scan(s, i, seen_dot) {
            Ok(j) => {
                &&& i <= j <= s.len()
                &&& forall|k: int| i <= k < j ==> is_digit_char(#[trigger] s[k]) || s[k] == '.'
                &&& seen_dot ==> forall|k: int| i <= k < j ==> #[trigger] s[k] != '.'
                &&& forall|k: int, m: int|
                    i <= k < m < j ==> !(#[trigger] s[k] == '.' && #[trigger] s[m] == '.')
            },
            Err(_) => true,
        },
    decreases s.len() - i,
{
    if i < s.len() {
        if s[i] == '.' {
            if !seen_dot {
                lemma_num_scan_chars(s, i + 1, true);
            }
        } else if is_digit_char(s[i]) {
            lemma_num_scan_chars(s, i + 1, seen_dot);
        }
    }
}

/// On ASCII input, every name or literal the tokenizer hands out is well
/// formed.
proof fn lemma_tok_step_wf(s: Seq<char>, i: int)
    requires
        ascii_text(s),
        0 <= i <= s.len(),
    ensures
        match tok_step(s, i) {
            Ok((t, j)) => match t {
                Tok::Ident(n) => wf_name(n),
                Tok::Num(w) => wf_num(w),
                _ => true,
            },
            Err(_) => true,
        },
    decreases s.len() - i, 0int,
{
    if i < s.len() {
        let c = s[i];
        if is_ws_char(c) {
            lemma_tok_step_wf(s, i + 1);
        } else if is_alpha_char(c) {
            let j = word_end(s, i);
            assert(is_alnum_char(s[i]));
            lemma_word_end_alnum(s, i + 1);
            assert(j == word_end(s, i + 1));
            assert(j > i);
            lemma_word_end_alnum(s, i);
            let w = s.subrange(i, j);
            assert(w[0] == s[i]);
            assert(forall|k: int| 0 <= k < w.len() ==> w[k] == s[i + k]);
        } else if is_digit_char(c) {
            lemma_num_scan_chars(s, i, false);
            assert(s[i] != '.');
            lemma_num_scan_chars(s, i + 1, false);
            if let Ok(j) = num_scan(s, i, false) {
                let w = s.subrange(i, j);
                assert(num_scan(s, i, false) == num_scan(s, i + 1, false));
                assert(j > i);
                assert(w[0] == s[i]);
                assert(forall|k: int| 0 <= k < w.len() ==> w[k] == s[i + k]);
            }
        } else if c == '#' {
            lemma_skip_comment_wf(s, i + 1);
        }
    }
}

/// The companion of [`lemma_tok_step_wf`] inside a comment.
proof fn lemma_skip_comment_wf(s: Seq<char>, i: int)
    requires
        ascii_text(s),
        0 <= i <= s.len(),
    ensures
        match skip_comment(s, i) {
            Ok((t, j)) => match t {
                Tok::Ident(n) => wf_name(n),
                Tok::Num(w) => wf_num(w),
                _ => true,
            },
            Err(_) => true,
        },
    decreases s.len() - i, 1int,
{
    if i < s.len() {
        if s[i] == '\r' || s[i] == '\n' {
            lemma_tok_step_wf(s, i);
        } else {
            lemma_skip_comment_wf(s, i + 1);
        }
    }
}

/// On ASCII input, advancing the lookahead keeps it well formed.
proof fn lemma_advance_wf(p: PState)
    requires
        ascii_text(p.src),
    ensures
        match sp_advance(p) {
            Ok((t, p1)) => p1.src == p.src && cur_wf(p1),
            Err(_) => true,
        },
{
    if 0 <= p.at <= p.src.len() {
        lemma_tok_step_wf(p.src, p.at);
    }
}

/// A well-formed expression joins a sequence of well-formed ones.
proof fn lemma_wf_args_push(args: Seq<SpecExpr>, e: SpecExpr)
    requires
        wf_args(args),
        wf_expr(e),
    ensures
        wf_args(args.push(e)),
    decreases args.len(),
{
    let pushed = args.push(e);
    assert(pushed.len() == args.len() + 1);
    if args.len() == 0 {
        assert(pushed[0] == e);
        assert(pushed.subrange(1, pushed.len() as int) =~= Seq::<SpecExpr>::empty());
        assert(wf_args(Seq::<SpecExpr>::empty()));
    } else {
        let rest = args.subrange(1, args.len() as int);
        lemma_wf_args_push(rest, e);
        assert(pushed.subrange(1, pushed.len() as int) =~= rest.push(e));
        assert(pushed[0] == args[0]);
    }
}

/// On ASCII input, a parsed primary expression is well formed.
proof fn lemma_primary_wf(p: PState, fuel: nat)
    requires
        ascii_text(p.src),
        cur_wf(p),
    ensures
        match sp_parse_primary(p, fuel) {
            Ok(r) => wf_expr(r.0) && r.1.src == p.src && cur_wf(r.1),
            Err(_) => true,
        },
    decreases fuel,
{
    if fuel > 0 {
        match p.cur {
            Tok::Ident(n) => {
                lemma_identifier_wf(p, (fuel - 1) as nat);
            },
            Tok::Num(w) => {
                lemma_advance_wf(p);
            },
            Tok::Sym(c) => {
                if c == '(' {
                    lemma_paren_wf(p, (fuel - 1) as nat);
                }
            },
            _ => {},
        }
    }
}

/// On ASCII input, a parsed identifier expression is well formed.
proof fn lemma_identifier_wf(p: PState, fuel: nat)
    requires
        ascii_text(p.src),
        cur_wf(p),
    ensures
        match sp_parse_identifier_expression(p, fuel) {
            Ok(r) => wf_expr(r.0) && r.1.src == p.src && cur_wf(r.1),
            Err(_) => true,
        },
    decreases fuel,
{
    if fuel > 0 {
        if let Tok::Ident(name) = p.cur {
            lemma_advance_wf(p);
            if let Ok((t1, p1)) = sp_advance(p) {
                if t1 == Tok::Sym('(') {
                    lemma_advance_wf(p1);
                    if let Ok((t2, p2)) = sp_advance(p1) {
                        if t2 == Tok::Sym(')') {
                            lemma_advance_wf(p2);
                            assert(wf_args(Seq::<SpecExpr>::empty()));
                        } else {
                            lemma_args_wf(p2, name, Seq::empty(), (fuel - 1) as nat);
                        }
                    }
                }
            }
        }
    }
}

/// On ASCII input, a parsed argument list joined to well-formed arguments
/// makes a well-formed call.
proof fn lemma_args_wf(p: PState, callee: Seq<char>, acc: Seq<SpecExpr>, fuel: nat)
    requires
        ascii_text(p.src),
        cur_wf(p),
        wf_name(callee),
        wf_args(acc),
    ensures
        match sp_parse_args(p, callee, acc, fuel) {
            Ok(r) => wf_expr(r.0) && r.1.src == p.src && cur_wf(r.1),
            Err(_) => true,
        },
    decreases fuel,
{
    if fuel > 0 {
        lemma_expression_wf(p, (fuel - 1) as nat);
        if let Ok((arg, p1)) = sp_parse_expression(p, (fuel - 1) as nat) {
            lemma_wf_args_push(acc, arg);
            match p1.cur {
                Tok::Sym(')') => {
                    lemma_advance_wf(p1);
                },
                Tok::Sym(',') => {
                    lemma_advance_wf(p1);
                    if let Ok((t2, p2)) = sp_advance(p1) {
                        lemma_args_wf(p2, callee, acc.push(arg), (fuel - 1) as nat);
                    }
                },
                _ => {},
            }
        }
    }
}

/// On ASCII input, a parsed parenthesized expression is well formed.
proof fn lemma_paren_wf(p: PState, fuel: nat)
    requires
        ascii_text(p.src),
        cur_wf(p),
    ensures
        match sp_parse_parenthesis(p, fuel) {
            Ok(r) => wf_expr(r.0) && r.1.src == p.src && cur_wf(r.1),
            Err(_) => true,
        },
    decreases fuel,
{
    if fuel > 0 {
        if p.cur == Tok::Sym('(') {
            lemma_advance_wf(p);
            if let Ok((t1, p1)) = sp_advance(p) {
                lemma_expression_wf(p1, (fuel - 1) as nat);
                if let Ok((inner, p2)) = sp_parse_expression(p1, (fuel - 1) as nat) {
                    if p2.cur == Tok::Sym(')') {
                        lemma_advance_wf(p2);
                    }
                }
            }
        }
    }
}

/// On ASCII input, precedence climbing from a well-formed left-hand side
/// builds a well-formed expression.
proof fn lemma_binary_rhs_wf(p: PState, min: int, lhs: SpecExpr, fuel: nat)
    requires
        ascii_text(p.src),
        cur_wf(p),
        wf_expr(lhs),
    ensures
        match sp_parse_binary_rhs(p, min, lhs, fuel) {
            Ok(r) => wf_expr(r.0) && r.1.src == p.src && cur_wf(r.1),
            Err(_) => true,
        },
    decreases fuel,
{
    if fuel > 0 {
        let prec = tok_precedence(p.cur) as int;
        if prec >= min {
            if let Tok::Sym(c) = p.cur {
                if let Some(op) = op_of_sym(c) {
                    lemma_advance_wf(p);
                    if let Ok((t1, p1)) = sp_advance(p) {
                        lemma_primary_wf(p1, (fuel - 1) as nat);
                        if let Ok((rhs, p2)) = sp_parse_primary(p1, (fuel - 1) as nat) {
                            let next = tok_precedence(p2.cur) as int;
                            if prec < next {
                                lemma_binary_rhs_wf(p2, prec + 1, rhs, (fuel - 1) as nat);
                                if let Ok((rhs2, p3)) = sp_parse_binary_rhs(
                                    p2,
                                    prec + 1,
                                    rhs,
                                    (fuel - 1) as nat,
                                ) {
                                    lemma_binary_rhs_wf(
                                        p3,
                                        min,
                                        SpecExpr::Bin {
                                            operator: op,
                                            lhs: Box::new(lhs),
                                            rhs: Box::new(rhs2),
                                        },
                                        (fuel - 1) as nat,
                                    );
                                }
                            } else {
                                lemma_binary_rhs_wf(
                                    p2,
                                    min,
                                    SpecExpr::Bin {
                                        operator: op,
                                        lhs: Box::new(lhs),
                                        rhs: Box::new(rhs),
                                    },
                                    (fuel - 1) as nat,
                                );
                            }
                        }
                    }
                }
            }
        }
    }
}

/// On ASCII input, every expression the parser produces is well formed.
proof fn lemma_expression_wf(p: PState, fuel: nat)
    requires
        ascii_text(p.src),
        cur_wf(p),
    ensures
        match sp_parse_expression(p, fuel) {
            Ok(r) => wf_expr(r.0) && r.1.src == p.src && cur_wf(r.1),
            Err(_) => true,
        },
    decreases fuel,
{
    if fuel > 0 {
        lemma_primary_wf(p, (fuel - 1) as nat);
        if let Ok((lhs, p1)) = sp_parse_primary(p, (fuel - 1) as nat) {
            lemma_binary_rhs_wf(p1, 1, lhs, (fuel - 1) as nat);
        }
    }
}

/// The round-trip law for the parser's own output: any expression tree
/// parsed from ASCII source re-emits in canonical syntax to a text that
/// parses back to a structurally identical tree, wholly consumed.
pub proof fn lemma_parser_output_round_trips(
    s: Seq<char>,
    p0: PState,
    fuel: nat,
    e: SpecExpr,
    p1: PState,
    refuel: nat,
)
    requires
        ascii_text(s),
        state_at(s, 0) == Ok::<PState, ParseError>(p0),
        sp_parse_expression(p0, fuel) == Ok::<(SpecExpr, PState), ParseError>((e, p1)),
        refuel >= esize(e) + 1,
    ensures
        wf_expr(e),
        ({
            let t = unparse_expr(e);
            state_at(t, 0) matches Ok(q0) && sp_parse_expression(q0, refuel) == Ok::<
                (SpecExpr, PState),
                ParseError,
            >((e, PState { src: t, at: t.len() as int, cur: Tok::Eof }))
        }),
{
    lemma_tok_step_wf(s, 0);
    lemma_expression_wf(p0, fuel);
    lemma_unparse_reparse(e, refuel);
}

} // verus!

