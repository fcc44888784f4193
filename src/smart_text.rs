//! Parsing of smart text: words, runs of space, and the placeholders
//! `{icon:<name>}` and `{named:<name>}`, where a name is a lower-case letter
//! or `_` followed by lower-case letters, digits and `_`. No backtracking.
use vstd::prelude::*;
use vstd::string::StrSliceExecFns;

verus! {

/// A parsed piece of text; a sequence of pieces is `Nodes`.
#[derive(Debug, PartialEq, Eq)]
pub enum ParseNode<'a> {
    Nodes(Vec<ParseNode<'a>>),
    Text(&'a str),
    Space,
    Icon(&'a str),
    Named(&'a str),
}

/// What a single piece stands for.
pub ghost enum Piece {
    Text(Seq<char>),
    Space,
    Icon(Seq<char>),
    Named(Seq<char>),
}

/// What a parse result stands for: one piece, or several in order.
pub ghost enum Parsed {
    One(Piece),
    Many(Seq<Piece>),
}

/// The piece that a node stands for; a sequence has none.
pub open spec fn piece_of(n: ParseNode) -> Piece {
    match n {
        ParseNode::Text(t) => Piece::Text(t@),
        ParseNode::Space => Piece::Space,
        ParseNode::Icon(t) => Piece::Icon(t@),
        ParseNode::Named(t) => Piece::Named(t@),
        ParseNode::Nodes(_) => Piece::Space,
    }
}

/// What a node stands for, with the pieces of a sequence in order.
pub open spec fn parsed_of(n: ParseNode) -> Parsed {
    match n {
        ParseNode::Nodes(v) => Parsed::Many(v@.map_values(|c: ParseNode| piece_of(c))),
        _ => Parsed::One(piece_of(n)),
    }
}

/// Relies on char::is_whitespace: whether the character has Unicode's
/// White_Space property, which depends on the character alone.
pub uninterp spec fn white_space(c: char) -> bool;

/// Relies on char::is_whitespace (see `white_space`).
#[verifier::external_body]
fn is_whitespace(c: char) -> (r: bool)
    ensures
        r == white_space(c),
{
    c.is_whitespace()
}

/// Relies on str::strip_prefix: the rest of `s` when it starts with `prefix`.
#[verifier::external_body]
fn strip_prefix<'a>(s: &'a str, prefix: &str) -> (r: Option<&'a str>)
    ensures
        r is Some <==> (prefix@.len() <= s@.len() && s@.take(prefix@.len() as int) == prefix@),
        r is Some ==> r->0@ == s@.skip(prefix@.len() as int),
{
    s.strip_prefix(prefix)
}

pub open spec fn is_text_char(c: char) -> bool {
    c != '{' && c != '}' && !white_space(c)
}

pub open spec fn is_alpha(c: char) -> bool {
    ('a' <= c && c <= 'z') || c == '_'
}

pub open spec fn is_alpha_numeric(c: char) -> bool {
    is_alpha(c) || ('0' <= c && c <= '9')
}

pub open spec fn text_pred() -> spec_fn(char) -> bool {
    |c: char| is_text_char(c)
}

pub open spec fn space_pred() -> spec_fn(char) -> bool {
    |c: char| white_space(c)
}

pub open spec fn alnum_pred() -> spec_fn(char) -> bool {
    |c: char| is_alpha_numeric(c)
}

/// How many leading characters of `s` satisfy `p`.
pub open spec fn run_len(s: Seq<char>, p: spec_fn(char) -> bool) -> nat
    decreases s.len(),
{
    if s.len() > 0 && p(s[0]) {
        1 + run_len(s.drop_first(), p)
    } else {
        0
    }
}

/// The longest prefix of `s` whose characters satisfy `p`, when it is not
/// empty, and what follows it.
pub open spec fn run_spec(s: Seq<char>, p: spec_fn(char) -> bool) -> Option<(Seq<char>, Seq<char>)> {
    let n = run_len(s, p);
    if n == 0 {
        None
    } else {
        Some((s.take(n as int), s.skip(n as int)))
    }
}

/// A name and what follows it.
pub open spec fn name_spec(s: Seq<char>) -> Option<(Seq<char>, Seq<char>)> {
    if s.len() > 0 && is_alpha(s[0]) {
        run_spec(s, alnum_pred())
    } else {
        None
    }
}

/// `prefix`, a name and `}`: the name and what follows.
pub open spec fn tagged_spec(prefix: Seq<char>, s: Seq<char>) -> Option<(Seq<char>, Seq<char>)> {
    if prefix.len() <= s.len() && s.take(prefix.len() as int) == prefix {
        match name_spec(s.skip(prefix.len() as int)) {
            Some((name, rest)) => if rest.len() > 0 && rest[0] == '}' {
                Some((name, rest.drop_first()))
            } else {
                None
            },
            None => None,
        }
    } else {
        None
    }
}

pub open spec fn text_spec(s: Seq<char>) -> Option<(Piece, Seq<char>)> {
    match run_spec(s, text_pred()) {
        Some((t, rest)) => Some((Piece::Text(t), rest)),
        None => None,
    }
}

pub open spec fn space_spec(s: Seq<char>) -> Option<(Piece, Seq<char>)> {
    match run_spec(s, space_pred()) {
        Some((_, rest)) => Some((Piece::Space, rest)),
        None => None,
    }
}

pub open spec fn icon_spec(s: Seq<char>) -> Option<(Piece, Seq<char>)> {
    match tagged_spec("{icon:"@, s) {
        Some((name, rest)) => Some((Piece::Icon(name), rest)),
        None => None,
    }
}

pub open spec fn named_spec(s: Seq<char>) -> Option<(Piece, Seq<char>)> {
    match tagged_spec("{named:"@, s) {
        Some((name, rest)) => Some((Piece::Named(name), rest)),
        None => None,
    }
}

/// A word, else an icon, else a named value.
pub open spec fn node_spec(s: Seq<char>) -> Option<(Piece, Seq<char>)> {
    if text_spec(s) is Some {
        text_spec(s)
    } else if icon_spec(s) is Some {
        icon_spec(s)
    } else {
        named_spec(s)
    }
}

proof fn lemma_run_len_bound(s: Seq<char>, p: spec_fn(char) -> bool)
    ensures
        run_len(s, p) <= s.len(),
        forall|j: int| 0 <= j < run_len(s, p) ==> p(#[trigger] s[j]),
        run_len(s, p) < s.len() ==> !p(s[run_len(s, p) as int]),
    decreases s.len(),
{
    if s.len() > 0 && p(s[0]) {
        lemma_run_len_bound(s.drop_first(), p);
        assert forall|j: int| 0 <= j < run_len(s, p) implies p(#[trigger] s[j]) by {
            if j > 0 {
                assert(s[j] == s.drop_first()[j - 1]);
            }
        }
    }
}

proof fn lemma_node_progress(s: Seq<char>)
    ensures
        node_spec(s) matches Some((_, rest)) ==> rest.len() < s.len(),
{
    lemma_run_len_bound(s, text_pred());
    reveal_strlit("{icon:");
    reveal_strlit("{named:");
    lemma_run_len_bound(s.skip(6), alnum_pred());
    lemma_run_len_bound(s.skip(7), alnum_pred());
}

proof fn lemma_space_progress(s: Seq<char>)
    ensures
        space_spec(s) matches Some((_, rest)) ==> rest.len() < s.len(),
{
    lemma_run_len_bound(s, space_pred());
}

/// The pieces read one after another, each word or placeholder followed by
/// the space after it, if any; and what is left.
pub open spec fn nodes_list(s: Seq<char>) -> (Seq<Piece>, Seq<char>)
    decreases s.len(),
{
    match node_spec(s) {
        Some((p, rest)) => if rest.len() < s.len() {
            match space_spec(rest) {
                Some((sp, rest2)) => if rest2.len() < rest.len() {
                    let (ps, r) = nodes_list(rest2);
                    (seq![p, sp] + ps, r)
                } else {
                    (seq![], s)
                },
                None => {
                    let (ps, r) = nodes_list(rest);
                    (seq![p] + ps, r)
                },
            }
        } else {
            (seq![], s)
        },
        None => (seq![], s),
    }
}

/// No piece: nothing; one piece: that piece; more: the sequence of them.
pub open spec fn nodes_spec(s: Seq<char>) -> Option<(Parsed, Seq<char>)> {
    let (ps, rest) = nodes_list(s);
    if ps.len() == 0 {
        None
    } else if ps.len() == 1 {
        Some((Parsed::One(ps[0]), rest))
    } else {
        Some((Parsed::Many(ps), rest))
    }
}

/// The whole of `s` as parsed text, when all of it parses.
pub open spec fn parse_spec(s: Seq<char>) -> Option<Parsed> {
    match nodes_spec(s) {
        Some((p, rest)) => if rest.len() == 0 {
            Some(p)
        } else {
            None
        },
        None => None,
    }
}

proof fn lemma_run_len_exact(s: Seq<char>, p: spec_fn(char) -> bool, i: int)
    requires
        0 <= i <= s.len(),
        forall|j: int| 0 <= j < i ==> p(#[trigger] s[j]),
        i == s.len() || !p(s[i]),
    ensures
        run_len(s, p) == i,
    decreases i,
{
    if i > 0 {
        assert forall|j: int| 0 <= j < i - 1 implies p(#[trigger] s.drop_first()[j]) by {
            assert(s.drop_first()[j] == s[j + 1]);
        }
        if i < s.len() {
            assert(s.drop_first()[i - 1] == s[i]);
        }
        lemma_run_len_exact(s.drop_first(), p, i - 1);
    }
}

fn is_alpha_char(c: char) -> (r: bool)
    ensures
        r == is_alpha(c),
{
    ('a' <= c && c <= 'z') || c == '_'
}

fn is_alpha_numeric_char(c: char) -> (r: bool)
    ensures
        r == is_alpha_numeric(c),
{
    is_alpha_char(c) || ('0' <= c && c <= '9')
}

fn is_text(c: char) -> (r: bool)
    ensures
        r == is_text_char(c),
{
    c != '{' && c != '}' && !is_whitespace(c)
}

/// The number of leading characters that may stand in a word.
fn text_prefix_len(input: &str) -> (r: usize)
    ensures
        r == run_len(input@, text_pred()),
        r <= input@.len(),
{
    let n = input.unicode_len();
    let mut i: usize = 0;
    while i < n
        invariant
            n == input@.len(),
            i <= n,
            forall|j: int| 0 <= j < i ==> is_text_char(#[trigger] input@[j]),
        ensures
            i <= n,
            forall|j: int| 0 <= j < i ==> is_text_char(#[trigger] input@[j]),
            i == n || !is_text_char(input@[i as int]),
        decreases n - i,
    {
        if !is_text(input.get_char(i)) {
            break;
        }
        i += 1;
    }
    proof {
        lemma_run_len_exact(input@, text_pred(), i as int);
    }
    i
}

/// The number of leading white-space characters.
fn space_prefix_len(input: &str) -> (r: usize)
    ensures
        r == run_len(input@, space_pred()),
        r <= input@.len(),
{
    let n = input.unicode_len();
    let mut i: usize = 0;
    while i < n
        invariant
            n == input@.len(),
            i <= n,
            forall|j: int| 0 <= j < i ==> white_space(#[trigger] input@[j]),
        ensures
            i <= n,
            forall|j: int| 0 <= j < i ==> white_space(#[trigger] input@[j]),
            i == n || !white_space(input@[i as int]),
        decreases n - i,
    {
        if !is_whitespace(input.get_char(i)) {
            break;
        }
        i += 1;
    }
    proof {
        lemma_run_len_exact(input@, space_pred(), i as int);
    }
    i
}

/// One lower-case letter or `_`: its length in bytes, which is 1 for these
/// characters, and the rest.
pub fn parse_alpha(input: &str) -> (r: Option<(usize, &str)>)
    ensures
        r is Some <==> (input@.len() > 0 && is_alpha(input@[0])),
        r matches Some((n, rest)) ==> n == 1 && rest@ == input@.drop_first(),
{
    let len = input.unicode_len();
    if len == 0 {
        return None;
    }
    if is_alpha_char(input.get_char(0)) {
        Some((1, input.substring_char(1, len)))
    } else {
        None
    }
}

/// One lower-case letter, digit or `_`: its length in bytes, which is 1 for
/// these characters, and the rest.
pub fn parse_alpha_numeric(input: &str) -> (r: Option<(usize, &str)>)
    ensures
        r is Some <==> (input@.len() > 0 && is_alpha_numeric(input@[0])),
        r matches Some((n, rest)) ==> n == 1 && rest@ == input@.drop_first(),
{
    let len = input.unicode_len();
    if len == 0 {
        return None;
    }
    if is_alpha_numeric_char(input.get_char(0)) {
        Some((1, input.substring_char(1, len)))
    } else {
        None
    }
}

/// A name, and the rest.
pub fn parse_name(input: &str) -> (r: Option<(&str, &str)>)
    ensures
        r is Some <==> name_spec(input@) is Some,
        r matches Some((name, rest)) ==> name_spec(input@) == Some((name@, rest@)),
{
    let total = input.unicode_len();
    let (mut s1, mut rest) = match parse_alpha(input) {
        Some(found) => found,
        None => {
            return None;
        },
    };
    loop
        invariant
            total == input@.len(),
            1 <= s1 <= total,
            rest@ == input@.skip(s1 as int),
            forall|j: int| 0 <= j < s1 ==> is_alpha_numeric(#[trigger] input@[j]),
        ensures
            1 <= s1 <= total,
            rest@ == input@.skip(s1 as int),
            forall|j: int| 0 <= j < s1 ==> is_alpha_numeric(#[trigger] input@[j]),
            rest@.len() == 0 || !is_alpha_numeric(rest@[0]),
        decreases rest@.len(),
    {
        match parse_alpha_numeric(rest) {
            Some((s, new_rest)) => {
                assert(input@[s1 as int] == rest@[0]);
                s1 += s;
                rest = new_rest;
            },
            None => {
                break;
            },
        }
    }
    proof {
        if s1 < total {
            assert(input@[s1 as int] == rest@[0]);
        }
        lemma_run_len_exact(input@, alnum_pred(), s1 as int);
    }
    Some((input.substring_char(0, s1), rest))
}

/// A word: the longest run of characters other than braces and white space.
pub fn parse_text(input: &str) -> (r: Option<(ParseNode<'_>, &str)>)
    ensures
        r is Some <==> text_spec(input@) is Some,
        r matches Some((node, rest)) ==> node is Text && text_spec(input@) == Some(
            (piece_of(node), rest@),
        ),
{
    let n = text_prefix_len(input);
    if n == 0 {
        None
    } else {
        let len = input.unicode_len();
        Some((ParseNode::Text(input.substring_char(0, n)), input.substring_char(n, len)))
    }
}

/// A run of white space.
pub fn parse_space(input: &str) -> (r: Option<(ParseNode<'_>, &str)>)
    ensures
        r is Some <==> space_spec(input@) is Some,
        r matches Some((node, rest)) ==> node is Space && space_spec(input@) == Some(
            (piece_of(node), rest@),
        ),
{
    let n = space_prefix_len(input);
    if n == 0 {
        None
    } else {
        let len = input.unicode_len();
        Some((ParseNode::Space, input.substring_char(n, len)))
    }
}

/// `prefix`, a name and `}`: the name and the rest.
fn parse_tagged<'a>(input: &'a str, prefix: &str) -> (r: Option<(&'a str, &'a str)>)
    ensures
        r is Some <==> tagged_spec(prefix@, input@) is Some,
        r matches Some((name, rest)) ==> tagged_spec(prefix@, input@) == Some((name@, rest@)),
{
    let input = match strip_prefix(input, prefix) {
        Some(rest) => rest,
        None => {
            return None;
        },
    };
    let (name, rest) = match parse_name(input) {
        Some(found) => found,
        None => {
            return None;
        },
    };
    proof {
        reveal_strlit("}");
        if rest@.len() > 0 {
            if rest@[0] == '}' {
                assert(rest@.take(1) =~= "}"@);
            }
            if rest@.take(1) == "}"@ {
                assert(rest@.take(1)[0] == '}');
            }
            assert(rest@.skip(1) =~= rest@.drop_first());
        }
    }
    match strip_prefix(rest, "}") {
        Some(after) => Some((name, after)),
        None => None,
    }
}

/// `{icon:<name>}`.
pub fn parse_icon(input: &str) -> (r: Option<(ParseNode<'_>, &str)>)
    ensures
        r is Some <==> icon_spec(input@) is Some,
        r matches Some((node, rest)) ==> node is Icon && icon_spec(input@) == Some(
            (piece_of(node), rest@),
        ),
{
    match parse_tagged(input, "{icon:") {
        Some((name, rest)) => Some((ParseNode::Icon(name), rest)),
        None => None,
    }
}

/// `{named:<name>}`.
pub fn parse_named(input: &str) -> (r: Option<(ParseNode<'_>, &str)>)
    ensures
        r is Some <==> named_spec(input@) is Some,
        r matches Some((node, rest)) ==> node is Named && named_spec(input@) == Some(
            (piece_of(node), rest@),
        ),
{
    match parse_tagged(input, "{named:") {
        Some((name, rest)) => Some((ParseNode::Named(name), rest)),
        None => None,
    }
}

/// A word, else an icon, else a named value.
pub fn parse_node(input: &str) -> (r: Option<(ParseNode<'_>, &str)>)
    ensures
        r is Some <==> node_spec(input@) is Some,
        r matches Some((node, rest)) ==> !(node is Nodes) && node_spec(input@) == Some(
            (piece_of(node), rest@),
        ),
{
    match parse_text(input) {
        Some(found) => Some(found),
        None => match parse_icon(input) {
            Some(found) => Some(found),
            None => parse_named(input),
        },
    }
}

/// The pieces that a list of nodes stands for.
pub open spec fn pieces_of(v: Seq<ParseNode>) -> Seq<Piece> {
    v.map_values(|c: ParseNode| piece_of(c))
}

/// Words and placeholders one after another, each with the space after it.
pub fn parse_nodes(input: &str) -> (r: Option<(ParseNode<'_>, &str)>)
    ensures
        r is Some <==> nodes_spec(input@) is Some,
        r matches Some((node, rest)) ==> nodes_spec(input@) == Some((parsed_of(node), rest@)),
{
    let mut nodes: Vec<ParseNode> = Vec::new();
    let mut current_input = input;
    loop
        invariant
            pieces_of(nodes@) + nodes_list(current_input@).0 == nodes_list(input@).0,
            nodes_list(current_input@).1 == nodes_list(input@).1,
            forall|i: int| 0 <= i < nodes@.len() ==> !(#[trigger] nodes@[i] is Nodes),
        ensures
            pieces_of(nodes@) == nodes_list(input@).0,
            current_input@ == nodes_list(input@).1,
            forall|i: int| 0 <= i < nodes@.len() ==> !(#[trigger] nodes@[i] is Nodes),
        decreases current_input@.len(),
    {
        let ghost before = current_input@;
        let ghost before_nodes = nodes@;
        match parse_node(current_input) {
            Some((node, after_node_input)) => {
                proof {
                    lemma_node_progress(before);
                }
                nodes.push(node);
                current_input = after_node_input;
                match parse_space(current_input) {
                    Some((space_node, after_space_input)) => {
                        proof {
                            lemma_space_progress(current_input@);
                        }
                        nodes.push(space_node);
                        current_input = after_space_input;
                        proof {
                            assert(pieces_of(nodes@) =~= pieces_of(before_nodes) + seq![
                                piece_of(node),
                                Piece::Space,
                            ]);
                        }
                    },
                    None => {
                        proof {
                            assert(pieces_of(nodes@) =~= pieces_of(before_nodes) + seq![
                                piece_of(node),
                            ]);
                        }
                    },
                }
                proof {
                    assert forall|i: int| 0 <= i < nodes@.len() implies !(
                    #[trigger] nodes@[i] is Nodes) by {
                        if i < before_nodes.len() {
                            assert(nodes@[i] == before_nodes[i]);
                        }
                    }
                }
            },
            None => {
                proof {
                    assert(nodes_list(before).0 =~= seq![]);
                }
                break;
            },
        }
    }
    let count = nodes.len();
    if count == 0 {
        None
    } else if count == 1 {
        let node = nodes.pop().unwrap();
        proof {
            assert(pieces_of(nodes@.push(node))[0] == piece_of(node));
        }
        Some((node, current_input))
    } else {
        Some((ParseNode::Nodes(nodes), current_input))
    }
}

/// The whole input as parsed text; `None` when some of it does not parse.
pub fn parse(input: &str) -> (r: Option<ParseNode<'_>>)
    ensures
        r is Some <==> parse_spec(input@) is Some,
        r matches Some(node) ==> parse_spec(input@) == Some(parsed_of(node)),
{
    match parse_nodes(input) {
        Some((parse_node, rest)) => {
            if rest.is_empty() {
                Some(parse_node)
            } else {
                None
            }
        },
        None => None,
    }
}

} // verus!
