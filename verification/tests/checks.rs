use yutu::config::Config;
use yutu::lexer::Token;
use yutu::lints::{HEX_INT_OVERFLOW, UNUSED_LOCAL};
use yutu::parser::{Cst, Diagnostic, DiagnosticContext, Node, NodeRef, Rule, Span};
use yutu::scopes::NameMap;
use yutu::sema::{numerals, Checks, NumberFact};

enum Tree {
    R(Rule, Vec<Tree>),
    K(Token, usize, usize),
}

fn flatten(t: &Tree, nodes: &mut Vec<Node>, spans: &mut Vec<Span>) -> Span {
    match t {
        Tree::K(tok, s, e) => {
            nodes.push(Node::Token(*tok));
            spans.push(Span::new(*s, *e));
            Span::new(*s, *e)
        }
        Tree::R(rule, kids) => {
            let at = nodes.len();
            nodes.push(Node::Rule(*rule, 0));
            spans.push(Span::new(0, 0));
            let mut span: Option<Span> = None;
            for k in kids {
                let s = flatten(k, nodes, spans);
                span = Some(match span {
                    None => s,
                    Some(p) => Span::new(p.start, s.end),
                });
            }
            let span = span.unwrap_or(Span::new(0, 0));
            nodes[at] = Node::Rule(*rule, nodes.len() - at - 1);
            spans[at] = span;
            span
        }
    }
}

fn cst(source: &str, t: Tree) -> Cst {
    let mut nodes = Vec::new();
    let mut spans = Vec::new();
    flatten(&t, &mut nodes, &mut spans);
    Cst::new(source.as_bytes().to_vec(), nodes, spans).expect("well-formed tree")
}

/// `local <name> = <numeral>` with a decimal or hexadecimal integer.
fn local_numeral(name: &str, numeral: &str, hex: bool) -> (String, Tree) {
    let source = format!("local {name} = {numeral}\n");
    let n0 = 6;
    let n1 = n0 + name.len();
    let v0 = n1 + 3;
    let v1 = v0 + numeral.len();
    let (rule, tok) = if hex {
        (Rule::Hexintexp, Token::HexIntNumeral)
    } else {
        (Rule::Decintexp, Token::DecIntNumeral)
    };
    let tree = Tree::R(
        Rule::Chunk,
        vec![Tree::R(
            Rule::Block,
            vec![Tree::R(
                Rule::Localvarstat,
                vec![
                    Tree::K(Token::Local, 0, 5),
                    Tree::R(Rule::Attname, vec![Tree::K(Token::Name, n0, n1)]),
                    Tree::K(Token::Equal, n1 + 1, n1 + 2),
                    Tree::R(Rule::Explist, vec![Tree::R(rule, vec![Tree::K(tok, v0, v1)])]),
                ],
            )],
        )],
    );
    (source, tree)
}

fn run(config: &Config, c: &Cst) -> Vec<Diagnostic> {
    let ctx = DiagnosticContext::new(config);
    let numbers: NameMap<NumberFact> = NameMap::new();
    let mut diags = Vec::new();
    Checks::run(ctx, c, &numbers, &mut diags);
    diags
}

#[test]
fn token_texts_must_fit_their_kind() {
    let nodes = vec![Node::Rule(Rule::Decintexp, 1), Node::Token(Token::DecIntNumeral)];
    let spans = vec![Span::new(0, 2), Span::new(0, 2)];
    assert!(Cst::new(b"4x".to_vec(), nodes.clone(), spans.clone()).is_none());
    assert!(Cst::new(b"42".to_vec(), nodes.clone(), spans.clone()).is_some());
    let empty = vec![Span::new(0, 0), Span::new(0, 0)];
    assert!(Cst::new(b"42".to_vec(), nodes, empty).is_none());
    let nodes = vec![Node::Rule(Rule::Block, 1), Node::Token(Token::Equal)];
    let spans = vec![Span::new(0, 1), Span::new(0, 1)];
    assert!(Cst::new(b"+".to_vec(), nodes.clone(), spans.clone()).is_none());
    assert!(Cst::new(b"=".to_vec(), nodes, spans).is_some());
}

#[test]
fn tree_is_checked_on_construction() {
    let nodes = vec![Node::Rule(Rule::Block, 2), Node::Token(Token::Semi)];
    let spans = vec![Span::new(0, 1), Span::new(0, 1)];
    assert!(Cst::new(b";".to_vec(), nodes.clone(), spans.clone()).is_none());
    let nodes = vec![Node::Rule(Rule::Block, 1), Node::Token(Token::Semi)];
    assert!(Cst::new(b";".to_vec(), nodes.clone(), vec![Span::new(0, 2), Span::new(0, 1)]).is_none());
    let c = Cst::new(b";".to_vec(), nodes, spans).unwrap();
    assert_eq!(c.len(), 2);
    assert_eq!(c.children(NodeRef(0)), vec![NodeRef(1)]);
    assert_eq!(c.slice(c.span(NodeRef(1))), b";");
}

#[test]
fn unused_local_is_reported() {
    let (source, tree) = local_numeral("x", "1", false);
    let c = cst(&source, tree);
    let diags = run(&Config::default(), &c);
    let lints: Vec<_> = diags.iter().map(|d| d.groups[0].lint).collect();
    assert_eq!(lints, vec![Some(UNUSED_LOCAL)]);
    assert!(!diags[0].error);
}

#[test]
fn underscore_local_is_not_reported() {
    let (source, tree) = local_numeral("_x", "1", false);
    let c = cst(&source, tree);
    assert!(run(&Config::default(), &c).is_empty());
}

#[test]
fn hex_overflow_is_reported_with_its_value() {
    let (source, tree) = local_numeral("_x", "0xffffffffffffffff", true);
    let c = cst(&source, tree);
    let diags = run(&Config::default(), &c);
    assert_eq!(diags.len(), 1);
    assert_eq!(diags[0].groups[0].lint, Some(HEX_INT_OVERFLOW));
    let label = match &diags[0].groups[0].element {
        Some(yutu::parser::Element::Annotations(a)) => a[0].label.clone(),
        _ => None,
    };
    assert_eq!(label.as_deref(), Some("the actual value will be -1"));
}

#[test]
fn float_numerals_are_listed() {
    let source = "local _x = 1.5\n";
    let tree = Tree::R(
        Rule::Chunk,
        vec![Tree::R(
            Rule::Block,
            vec![Tree::R(
                Rule::Localvarstat,
                vec![
                    Tree::K(Token::Local, 0, 5),
                    Tree::R(Rule::Attname, vec![Tree::K(Token::Name, 6, 8)]),
                    Tree::K(Token::Equal, 9, 10),
                    Tree::R(
                        Rule::Explist,
                        vec![Tree::R(Rule::Decfloatexp, vec![Tree::K(Token::DecFloatNumeral, 11, 14)])],
                    ),
                ],
            )],
        )],
    );
    let c = cst(source, tree);
    assert_eq!(numerals(&c), vec![b"1.5".to_vec()]);
}

#[test]
fn empty_tree_reports_nothing() {
    let c = Cst::new(Vec::new(), Vec::new(), Vec::new()).unwrap();
    assert!(run(&Config::default(), &c).is_empty());
}

#[test]
fn inexact_hex_float_is_reported() {
    let source = "local _x = 0x1.000000000000001\n";
    let tree = Tree::R(
        Rule::Chunk,
        vec![Tree::R(
            Rule::Block,
            vec![Tree::R(
                Rule::Localvarstat,
                vec![
                    Tree::K(Token::Local, 0, 5),
                    Tree::R(Rule::Attname, vec![Tree::K(Token::Name, 6, 8)]),
                    Tree::K(Token::Equal, 9, 10),
                    Tree::R(
                        Rule::Explist,
                        vec![Tree::R(Rule::Hexfloatexp, vec![Tree::K(Token::HexFloatNumeral, 11, 30)])],
                    ),
                ],
            )],
        )],
    );
    let c = cst(source, tree);
    let diags = run(&Config::default(), &c);
    assert_eq!(diags.len(), 1);
    assert_eq!(diags[0].groups[0].lint, Some(yutu::lints::INEXACT_HEX_FLOAT));
}

#[test]
fn underscore_prefix_reported_without_hint() {
    let mut config = Config::default();
    config.allow_local_unused_hint = false;
    let (source, tree) = local_numeral("_x", "1", false);
    let c = cst(&source, tree);
    let diags = run(&config, &c);
    assert_eq!(diags.len(), 1);
    assert_eq!(diags[0].groups[0].lint, Some(UNUSED_LOCAL));
    assert_eq!(diags[0].groups[1].title, "use an underscore to suppress this warning");
    let (source, tree) = local_numeral("_", "1", false);
    let c = cst(&source, tree);
    assert!(run(&config, &c).is_empty());
}

#[test]
fn unused_local_suggests_prefix() {
    let (source, tree) = local_numeral("x", "1", false);
    let c = cst(&source, tree);
    let diags = run(&Config::default(), &c);
    assert_eq!(diags[0].groups[1].title, "use an underscore prefix to suppress this warning");
    match &diags[0].groups[1].element {
        Some(yutu::parser::Element::Patches(p)) => {
            assert_eq!(p[0].span, Span::new(6, 6));
            assert_eq!(p[0].replacement, "_");
        }
        _ => panic!("no patch"),
    }
}

/// `local _x = <numeral>` with a numeral expression of rule `rule` and token `tok`.
fn local_exp(numeral: &str, rule: Rule, tok: Token) -> (String, Tree) {
    let source = format!("local _x = {numeral}\n");
    let v1 = 11 + numeral.len();
    let tree = Tree::R(
        Rule::Chunk,
        vec![Tree::R(
            Rule::Block,
            vec![Tree::R(
                Rule::Localvarstat,
                vec![
                    Tree::K(Token::Local, 0, 5),
                    Tree::R(Rule::Attname, vec![Tree::K(Token::Name, 6, 8)]),
                    Tree::K(Token::Equal, 9, 10),
                    Tree::R(Rule::Explist, vec![Tree::R(rule, vec![Tree::K(tok, 11, v1)])]),
                ],
            )],
        )],
    );
    (source, tree)
}

fn run_with(c: &Cst, numeral: &str, fact: NumberFact) -> Vec<Diagnostic> {
    let config = Config::default();
    let ctx = DiagnosticContext::new(&config);
    let mut numbers: NameMap<NumberFact> = NameMap::new();
    numbers.insert(numeral.as_bytes(), fact);
    let mut diags = Vec::new();
    Checks::run(ctx, c, &numbers, &mut diags);
    diags
}

fn first_label(d: &Diagnostic) -> Option<String> {
    match &d.groups[0].element {
        Some(yutu::parser::Element::Annotations(a)) => a[0].label.clone(),
        _ => None,
    }
}

#[test]
fn leading_zero_is_reported_with_a_fix() {
    let (source, tree) = local_exp("042", Rule::Decintexp, Token::DecIntNumeral);
    let c = cst(&source, tree);
    let diags = run(&Config::default(), &c);
    assert_eq!(diags.len(), 1);
    assert_eq!(diags[0].groups[0].lint, Some(yutu::lints::OCTAL_CONFUSION));
    match &diags[0].groups[2].element {
        Some(yutu::parser::Element::Patches(p)) => {
            assert_eq!(p[0].span, Span::new(11, 12));
            assert_eq!(p[0].replacement, "");
        }
        _ => panic!("no patch"),
    }
    let (source, tree) = local_exp("0", Rule::Decintexp, Token::DecIntNumeral);
    assert!(run(&Config::default(), &cst(&source, tree)).is_empty());
}

#[test]
fn large_integer_rounds_its_digits() {
    let numeral = "100000000000000000000000";
    let (source, tree) = local_exp(numeral, Rule::Decintexp, Token::DecIntNumeral);
    let c = cst(&source, tree);
    let fact = NumberFact {
        infinite: false,
        int_part: b"99999999999999991611392".to_vec(),
        value_text: "99999999999999991611392".to_string(),
        near_pi: false,
    };
    let diags = run_with(&c, numeral, fact);
    assert_eq!(diags.len(), 1);
    assert_eq!(diags[0].groups[0].lint, Some(yutu::lints::ROUNDS_INT_PART));
    assert_eq!(first_label(&diags[0]).as_deref(), Some("the actual value will be 99999999999999991611392"));
}

#[test]
fn integer_within_range_is_not_rounded() {
    let numeral = "9223372036854775807";
    let (source, tree) = local_exp(numeral, Rule::Decintexp, Token::DecIntNumeral);
    let c = cst(&source, tree);
    let fact = NumberFact {
        infinite: false,
        int_part: b"9223372036854775808".to_vec(),
        value_text: "9223372036854775808".to_string(),
        near_pi: false,
    };
    assert!(run_with(&c, numeral, fact).is_empty());
}

#[test]
fn float_rounding_to_infinity_is_reported() {
    let numeral = "2e1000";
    let (source, tree) = local_exp(numeral, Rule::Decfloatexp, Token::DecFloatNumeral);
    let c = cst(&source, tree);
    let fact = NumberFact { infinite: true, int_part: b"inf".to_vec(), value_text: "inf".to_string(), near_pi: false };
    let diags = run_with(&c, numeral, fact);
    assert_eq!(diags.len(), 1);
    assert_eq!(diags[0].groups[0].lint, Some(yutu::lints::ROUNDS_TO_INF));
}

#[test]
fn approximate_pi_is_reported() {
    let numeral = "3.141";
    let (source, tree) = local_exp(numeral, Rule::Decfloatexp, Token::DecFloatNumeral);
    let c = cst(&source, tree);
    let fact = NumberFact { infinite: false, int_part: b"3".to_vec(), value_text: "3.141".to_string(), near_pi: true };
    let diags = run_with(&c, numeral, fact);
    assert_eq!(diags.len(), 1);
    assert_eq!(diags[0].groups[0].lint, Some(yutu::lints::APPROX_PI));
    match &diags[0].groups[1].element {
        Some(yutu::parser::Element::Patches(p)) => assert_eq!(p[0].replacement, "math.pi"),
        _ => panic!("no patch"),
    }
}

#[test]
fn consecutive_semicolons_are_reported() {
    let source = ";;";
    let tree = Tree::R(
        Rule::Chunk,
        vec![Tree::R(
            Rule::Block,
            vec![
                Tree::R(Rule::Emptystat, vec![Tree::K(Token::Semi, 0, 1)]),
                Tree::R(Rule::Emptystat, vec![Tree::K(Token::Semi, 1, 2)]),
            ],
        )],
    );
    let c = cst(source, tree);
    let diags = run(&Config::default(), &c);
    let empties: Vec<_> = diags.iter().filter(|d| d.groups[0].lint == Some(yutu::lints::EMPTY_STATEMENT)).collect();
    assert_eq!(empties.len(), 1);
    match &empties[0].groups[0].element {
        Some(yutu::parser::Element::Annotations(a)) => assert_eq!(a[0].span, Span::new(1, 2)),
        _ => panic!("no annotation"),
    }
}

/// `<names> = <values>` where each value is a decimal numeral or, as `f()`, a call.
fn assignment(names: &[&str], values: &[&str]) -> (String, Tree) {
    let mut source = String::new();
    let mut lhs = Vec::new();
    for (i, n) in names.iter().enumerate() {
        if i > 0 {
            lhs.push(Tree::K(Token::Comma, source.len(), source.len() + 1));
            source.push_str(", ");
        }
        lhs.push(Tree::R(Rule::Nameexp, vec![Tree::K(Token::Name, source.len(), source.len() + n.len())]));
        source.push_str(n);
    }
    source.push(' ');
    lhs.push(Tree::K(Token::Equal, source.len(), source.len() + 1));
    source.push_str("= ");
    let mut rhs = Vec::new();
    for (i, v) in values.iter().enumerate() {
        if i > 0 {
            rhs.push(Tree::K(Token::Comma, source.len(), source.len() + 1));
            source.push_str(", ");
        }
        let at = source.len();
        if *v == "f()" {
            rhs.push(Tree::R(
                Rule::Callexp,
                vec![
                    Tree::R(Rule::Nameexp, vec![Tree::K(Token::Name, at, at + 1)]),
                    Tree::R(Rule::ArgsExplist, vec![Tree::K(Token::LParen, at + 1, at + 2), Tree::K(Token::RParen, at + 2, at + 3)]),
                ],
            ));
        } else {
            rhs.push(Tree::R(Rule::Decintexp, vec![Tree::K(Token::DecIntNumeral, at, at + v.len())]));
        }
        source.push_str(v);
    }
    lhs.push(Tree::R(Rule::Explist, rhs));
    let tree = Tree::R(Rule::Chunk, vec![Tree::R(Rule::Block, vec![Tree::R(Rule::Assignstat, lhs)])]);
    (source, tree)
}

fn unbalanced_count(names: &[&str], values: &[&str]) -> usize {
    let (source, tree) = assignment(names, values);
    let c = cst(&source, tree);
    run(&Config::default(), &c).iter().filter(|d| d.groups[0].lint == Some(yutu::lints::UNBALANCED_ASSIGNMENT)).count()
}

#[test]
fn unbalanced_assignments() {
    assert_eq!(unbalanced_count(&["A", "B"], &["42"]), 1);
    assert_eq!(unbalanced_count(&["C", "D"], &["1", "2", "3"]), 1);
    assert_eq!(unbalanced_count(&["A", "B"], &["f()"]), 0);
    assert_eq!(unbalanced_count(&["A", "B", "C"], &["f()", "1"]), 1);
    assert_eq!(unbalanced_count(&["A", "B"], &["1", "2"]), 0);
}
