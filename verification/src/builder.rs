//! The emitter: renders an expression tree as the text of a regular
//! expression.

use vstd::prelude::*;
use vstd::string::{StrSliceExecFns, StringExecFns};
use crate::ast::{
    all_wf, expr_view, exprs_view, lemma_all_wf, lemma_exprs_view, pattern_wf, CharKind,
    CharKindView, Character, CharacterView, Expr, ExprView, Group, GroupView, LookAround,
    Quantifier,
};
use crate::text::chars_of;
use crate::token::{Anchors, Flags};

verus! {

/// The characters that a literal text has to escape.
pub open spec fn is_meta(c: char) -> bool {
    c == '.' || c == '\\' || c == '+' || c == '*' || c == '?' || c == '[' || c == ']' || c == '{'
        || c == '}' || c == '(' || c == ')' || c == '|' || c == '^' || c == '$'
}

/// The characters that a character set has to escape.
pub open spec fn is_set_meta(c: char) -> bool {
    c == '\\' || c == ']' || c == '^' || c == '-'
}

/// A literal text with a backslash before each character that means
/// something in a regular expression.
pub open spec fn escape_literal(text: Seq<char>) -> Seq<char>
    decreases text.len(),
{
    if text.len() == 0 {
        Seq::empty()
    } else if is_meta(text.last()) {
        escape_literal(text.drop_last()) + seq!['\\', text.last()]
    } else {
        escape_literal(text.drop_last()).push(text.last())
    }
}

/// The members of a character set with a backslash before each character
/// that means something between square brackets.
pub open spec fn escape_set(text: Seq<char>) -> Seq<char>
    decreases text.len(),
{
    if text.len() == 0 {
        Seq::empty()
    } else if is_set_meta(text.last()) {
        escape_set(text.drop_last()) + seq!['\\', text.last()]
    } else {
        escape_set(text.drop_last()).push(text.last())
    }
}

/// The character of a decimal digit.
pub open spec fn digit_char(d: int) -> char
    recommends
        0 <= d <= 9,
{
    (d + '0' as int) as char
}

/// A number that is not negative, in decimal digits.
pub open spec fn decimal(n: int) -> Seq<char>
    decreases n,
{
    if n < 10 {
        seq![digit_char(n)]
    } else {
        decimal(n / 10).push(digit_char(n % 10))
    }
}

/// A class of characters from `from` to `to`.
pub open spec fn range(from: char, to: char) -> Seq<char> {
    seq!['[', from, '-', to, ']']
}

/// The fragment of an atom.
pub open spec fn render_atom(kind: CharKindView) -> Seq<char> {
    match kind {
        CharKindView::Literally(text) => escape_literal(text),
        CharKindView::OneOf(text) => seq!['['] + escape_set(text) + seq![']'],
        CharKindView::Raw(text) => text,
        CharKindView::Letter { from, to } => range(from, to),
        CharKindView::UppercaseLetter { from, to } => range(from, to),
        CharKindView::Digit { from, to } => range(digit_char(from), digit_char(to)),
        CharKindView::AnyCharacter => "\\w"@,
        CharKindView::NoCharacter => "\\W"@,
        CharKindView::Anything => "."@,
        CharKindView::NewLine => "\\n"@,
        CharKindView::Whitespace => "\\s"@,
        CharKindView::NoWhitespace => "\\S"@,
        CharKindView::Tab => "\\t"@,
    }
}

/// What a quantifier puts behind the fragment that it repeats.
pub open spec fn render_quantifier(q: Option<Quantifier>) -> Seq<char> {
    match q {
        None => Seq::empty(),
        Some(Quantifier::Once) => Seq::empty(),
        Some(Quantifier::Twice) => "{2}"@,
        Some(Quantifier::NeverOrMore) => "*"@,
        Some(Quantifier::OnceOrMore) => "+"@,
        Some(Quantifier::Optional) => "?"@,
        Some(Quantifier::Exactly(n)) => seq!['{'] + decimal(n as int) + seq!['}'],
        Some(Quantifier::AtLeast(n)) => seq!['{'] + decimal(n as int) + seq![',', '}'],
        Some(Quantifier::Between { from, to }) => seq!['{'] + decimal(from as int) + seq![','] + decimal(
            to as int,
        ) + seq!['}'],
    }
}

/// How an assertion opens.
pub open spec fn render_lookaround(kind: LookAround) -> Seq<char> {
    match kind {
        LookAround::IfFollowedBy => "(?="@,
        LookAround::IfNotFollowedBy => "(?!"@,
        LookAround::IfAlreadyHad => "(?<="@,
        LookAround::IfNotAlreadyHad => "(?<!"@,
    }
}

/// The letter of a flag.
pub open spec fn flag_letter(flag: Flags) -> char {
    match flag {
        Flags::CaseInsensitive => 'i',
        Flags::MultiLine => 'm',
        Flags::AllLazy => 'U',
    }
}

/// Whether the fragment of an atom is put into a group of its own when a
/// quantifier follows: a text of several characters is, a class is not.
pub open spec fn needs_group(kind: CharKindView) -> bool {
    kind is Literally || kind is Raw
}

/// The fragment of an expression: that of its atom or group, and behind it
/// what its quantifier adds. A literal or raw text that is quantified
/// stands in a group that captures nothing, and so does a quantified
/// `until`. Flags add nothing here: they stand before the whole pattern.
pub open spec fn render_expr(e: ExprView) -> Seq<char>
    decreases e, 1int,
{
    match e {
        ExprView::Anchor(Anchors::BeginWith) => "^"@,
        ExprView::Anchor(Anchors::MustEnd) => "$"@,
        ExprView::Character(c, q, _) => (match c {
            CharacterView::CharKind(kind) => if q is Some && needs_group(kind) {
                "(?:"@ + render_atom(kind) + ")"@
            } else {
                render_atom(kind)
            },
            CharacterView::Group(g) => match g {
                GroupView::Capture { inner, name } => (match name {
                    Some(n) => "(?P<"@ + n + ">"@,
                    None => "("@,
                }) + render_sequence(inner) + ")"@,
                GroupView::AnyOf { inner } => "(?:"@ + render_alternatives(inner) + ")"@,
                GroupView::Until { inner } => if q is Some {
                    "(?:"@ + ".*?"@ + render_sequence(inner) + ")"@
                } else {
                    ".*?"@ + render_sequence(inner)
                },
                GroupView::LookAround { kind, inner } => render_lookaround(kind) + render_sequence(
                    inner,
                ) + ")"@,
            },
        }) + render_quantifier(q),
    }
}

/// The fragments of the expressions, one behind the other.
pub open spec fn render_sequence(exprs: Seq<ExprView>) -> Seq<char>
    decreases exprs, 0int,
{
    if exprs.len() == 0 {
        Seq::empty()
    } else {
        render_sequence(exprs.drop_last()) + render_expr(exprs.last())
    }
}

/// The fragments of the expressions as alternatives, with a bar between
/// each two.
pub open spec fn render_alternatives(exprs: Seq<ExprView>) -> Seq<char>
    decreases exprs, 0int,
{
    if exprs.len() == 0 {
        Seq::empty()
    } else if exprs.len() == 1 {
        render_expr(exprs.last())
    } else {
        render_alternatives(exprs.drop_last()) + "|"@ + render_expr(exprs.last())
    }
}

/// The letters of the flags of an expression, in the order in which the
/// flags stand in the source: those within a group before those behind it.
pub open spec fn expr_flags(e: ExprView) -> Seq<char>
    decreases e, 1int,
{
    match e {
        ExprView::Anchor(_) => Seq::empty(),
        ExprView::Character(c, _, flags) => (match c {
            CharacterView::CharKind(_) => Seq::empty(),
            CharacterView::Group(g) => match g {
                GroupView::Capture { inner, .. } => sequence_flags(inner),
                GroupView::AnyOf { inner } => sequence_flags(inner),
                GroupView::Until { inner } => sequence_flags(inner),
                GroupView::LookAround { inner, .. } => sequence_flags(inner),
            },
        }) + flags.map_values(|f: Flags| flag_letter(f)),
    }
}

/// The letters of the flags of a sequence of expressions.
pub open spec fn sequence_flags(exprs: Seq<ExprView>) -> Seq<char>
    decreases exprs, 0int,
{
    if exprs.len() == 0 {
        Seq::empty()
    } else {
        sequence_flags(exprs.drop_last()) + expr_flags(exprs.last())
    }
}

/// What stands before a pattern with the flag letters `letters`.
pub open spec fn render_flags(letters: Seq<char>) -> Seq<char> {
    if letters.len() == 0 {
        Seq::empty()
    } else {
        "(?"@ + letters + ")"@
    }
}

/// The regular expression of a pattern: its flags, if it has any, and the
/// fragments of its expressions.
pub open spec fn render_pattern(exprs: Seq<ExprView>) -> Seq<char> {
    render_flags(sequence_flags(exprs)) + render_sequence(exprs)
}

/// An atom that is a whole pattern renders as its fragment and nothing
/// else: no flags stand before it and no group round it. The text depends
/// on the tree alone, so rendering a tree again gives the same text.
pub proof fn lemma_atom_alone(kind: CharKindView)
    ensures
        render_pattern(
            seq![ExprView::Character(CharacterView::CharKind(kind), None, Seq::empty())],
        ) == render_atom(kind),
{
    let e = ExprView::Character(CharacterView::CharKind(kind), None, Seq::empty());
    assert(seq![e].drop_last() =~= Seq::<ExprView>::empty());
    assert(expr_flags(e) =~= Seq::<char>::empty());
    assert(sequence_flags(Seq::<ExprView>::empty()) =~= Seq::<char>::empty());
    assert(render_sequence(Seq::<ExprView>::empty()) =~= Seq::<char>::empty());
    assert(render_expr(e) =~= render_atom(kind));
}

/// Collects the text of a regular expression.
pub struct Builder {
    pattern: String,
}

impl View for Builder {
    type V = Seq<char>;

    closed spec fn view(&self) -> Seq<char> {
        self.pattern@
    }
}

impl Builder {
    /// A builder that holds nothing yet.
    pub fn new() -> (builder: Builder)
        ensures
            builder@ == Seq::<char>::empty(),
    {
        Builder { pattern: String::new() }
    }

    /// The text that was collected.
    pub fn finish(self) -> (pattern: String)
        ensures
            pattern@ == self@,
    {
        self.pattern
    }

    /// Adds a text as it is.
    fn push_str(&mut self, text: &str)
        ensures
            final(self)@ == old(self)@ + text@,
    {
        self.pattern.append(text);
    }

    /// Adds a character.
    fn push(&mut self, c: char)
        ensures
            final(self)@ == old(self)@.push(c),
    {
        self.pattern.push(c);
    }

    /// Adds a text with each character escaped that `set` or the literal
    /// rule asks for.
    fn push_escaped(&mut self, text: &str, set: bool)
        ensures
            final(self)@ == old(self)@ + (if set {
                escape_set(text@)
            } else {
                escape_literal(text@)
            }),
    {
        let chars = chars_of(text);
        let mut i: usize = 0;
        while i < chars.len()
            invariant
                i <= chars.len(),
                chars@ == text@,
                self@ == old(self)@ + (if set {
                    escape_set(chars@.take(i as int))
                } else {
                    escape_literal(chars@.take(i as int))
                }),
            decreases chars.len() - i,
        {
            let c = chars[i];
            let ghost done = chars@.take(i as int);
            let ghost next = chars@.take(i as int + 1);
            proof {
                assert(next.drop_last() =~= done);
            }
            let meta = if set {
                c == '\\' || c == ']' || c == '^' || c == '-'
            } else {
                c == '.' || c == '\\' || c == '+' || c == '*' || c == '?' || c == '[' || c == ']'
                    || c == '{' || c == '}' || c == '(' || c == ')' || c == '|' || c == '^' || c
                    == '$'
            };
            if meta {
                self.push('\\');
                self.push(c);
            } else {
                self.push(c);
            }
            i += 1;
        }
        assert(chars@.take(i as int) =~= chars@);
    }

    /// Adds a number in decimal digits.
    fn push_decimal(&mut self, n: i32)
        requires
            n >= 0,
        ensures
            final(self)@ == old(self)@ + decimal(n as int),
        decreases n,
    {
        if n >= 10 {
            self.push_decimal(n / 10);
        }
        let d = ((n % 10) as u8 + 48u8) as char;
        self.push(d);
    }

    /// Adds a class of characters from `from` to `to`.
    fn push_range(&mut self, from: char, to: char)
        ensures
            final(self)@ == old(self)@ + range(from, to),
    {
        self.push('[');
        self.push(from);
        self.push('-');
        self.push(to);
        self.push(']');
    }

    /// Adds the fragment of an atom.
    fn push_atom(&mut self, kind: &CharKind)
        requires
            kind@.wf(),
        ensures
            final(self)@ == old(self)@ + render_atom(kind@),
    {
        match kind {
            CharKind::Literally(text) => {
                self.push_escaped(text.as_str(), false);
            },
            CharKind::OneOf(text) => {
                self.push('[');
                self.push_escaped(text.as_str(), true);
                self.push(']');
            },
            CharKind::Raw(text) => {
                self.push_str(text.as_str());
            },
            CharKind::Letter { from, to } => {
                self.push_range(*from, *to);
            },
            CharKind::UppercaseLetter { from, to } => {
                self.push_range(*from, *to);
            },
            CharKind::Digit { from, to } => {
                self.push_range((*from as u8 + 48u8) as char, (*to as u8 + 48u8) as char);
            },
            CharKind::AnyCharacter => {
                self.push_str("\\w");
            },
            CharKind::NoCharacter => {
                self.push_str("\\W");
            },
            CharKind::Anything => {
                self.push_str(".");
            },
            CharKind::NewLine => {
                self.push_str("\\n");
            },
            CharKind::Whitespace => {
                self.push_str("\\s");
            },
            CharKind::NoWhitespace => {
                self.push_str("\\S");
            },
            CharKind::Tab => {
                self.push_str("\\t");
            },
        }
    }

    /// Adds what a quantifier puts behind a fragment.
    fn push_quantifier(&mut self, q: &Option<Quantifier>)
        requires
            q matches Some(quantifier) ==> quantifier.wf(),
        ensures
            final(self)@ == old(self)@ + render_quantifier(*q),
    {
        match q {
            None => {},
            Some(Quantifier::Once) => {},
            Some(Quantifier::Twice) => {
                self.push_str("{2}");
            },
            Some(Quantifier::NeverOrMore) => {
                self.push_str("*");
            },
            Some(Quantifier::OnceOrMore) => {
                self.push_str("+");
            },
            Some(Quantifier::Optional) => {
                self.push_str("?");
            },
            Some(Quantifier::Exactly(n)) => {
                self.push('{');
                self.push_decimal(*n);
                self.push('}');
            },
            Some(Quantifier::AtLeast(n)) => {
                self.push('{');
                self.push_decimal(*n);
                self.push(',');
                self.push('}');
            },
            Some(Quantifier::Between { from, to }) => {
                self.push('{');
                self.push_decimal(*from);
                self.push(',');
                self.push_decimal(*to);
                self.push('}');
                assert(self@ =~= old(self)@ + (seq!['{'] + decimal(*from as int) + seq![',']
                    + decimal(*to as int) + seq!['}']));
            },
        }
    }

    /// Adds the fragment of an expression.
    fn push_expr(&mut self, e: &Expr)
        requires
            e@ is Anchor || e@.wf(),
        ensures
            final(self)@ == old(self)@ + render_expr(e@),
        decreases e, 1int,
    {
        let ghost start = self@;
        match e {
            Expr::Anchor(Anchors::BeginWith) => {
                self.push_str("^");
            },
            Expr::Anchor(Anchors::MustEnd) => {
                self.push_str("$");
            },
            Expr::Character(c, q, _) => {
                let quantified = q.is_some();
                match c {
                    Character::CharKind(kind) => {
                        let grouped = quantified && match kind {
                            CharKind::Literally(_) | CharKind::Raw(_) => true,
                            _ => false,
                        };
                        if grouped {
                            self.push_str("(?:");
                            self.push_atom(kind);
                            self.push_str(")");
                        } else {
                            self.push_atom(kind);
                        }
                    },
                    Character::Group(Group::Capture { inner, name }) => {
                        match name {
                            Some(n) => {
                                self.push_str("(?P<");
                                self.push_str(n.as_str());
                                self.push_str(">");
                            },
                            None => {
                                self.push_str("(");
                            },
                        }
                        self.push_sequence(inner);
                        self.push_str(")");
                        assert(self@ =~= start + ((match name {
                            Some(n) => "(?P<"@ + n@ + ">"@,
                            None => "("@,
                        }) + render_sequence(exprs_view(inner@)) + ")"@));
                    },
                    Character::Group(Group::AnyOf { inner }) => {
                        self.push_str("(?:");
                        self.push_alternatives(inner);
                        self.push_str(")");
                        assert(self@ =~= start + ("(?:"@ + render_alternatives(exprs_view(inner@))
                            + ")"@));
                    },
                    Character::Group(Group::Until { inner }) => {
                        if quantified {
                            self.push_str("(?:");
                            self.push_str(".*?");
                            self.push_sequence(inner);
                            self.push_str(")");
                            assert(self@ =~= start + ("(?:"@ + ".*?"@ + render_sequence(
                                exprs_view(inner@),
                            ) + ")"@));
                        } else {
                            self.push_str(".*?");
                            self.push_sequence(inner);
                        }
                    },
                    Character::Group(Group::LookAround { kind, inner }) => {
                        match kind {
                            LookAround::IfFollowedBy => {
                                self.push_str("(?=");
                            },
                            LookAround::IfNotFollowedBy => {
                                self.push_str("(?!");
                            },
                            LookAround::IfAlreadyHad => {
                                self.push_str("(?<=");
                            },
                            LookAround::IfNotAlreadyHad => {
                                self.push_str("(?<!");
                            },
                        }
                        self.push_sequence(inner);
                        self.push_str(")");
                        assert(self@ =~= start + (render_lookaround(*kind) + render_sequence(
                            exprs_view(inner@),
                        ) + ")"@));
                    },
                }
                self.push_quantifier(q);
            },
        }
    }

    /// Adds the fragments of the expressions, one behind the other.
    fn push_sequence(&mut self, exprs: &Vec<Expr>)
        requires
            all_wf(exprs_view(exprs@)),
        ensures
            final(self)@ == old(self)@ + render_sequence(exprs_view(exprs@)),
        decreases exprs, 0int,
    {
        let ghost views = exprs_view(exprs@);
        proof {
            lemma_exprs_view(exprs@);
            lemma_all_wf(views);
        }
        let mut i: usize = 0;
        while i < exprs.len()
            invariant
                i <= exprs.len(),
                views == exprs_view(exprs@),
                views.len() == exprs.len(),
                forall|j: int| 0 <= j < exprs.len() ==> #[trigger] views[j] == expr_view(exprs@[j]),
                forall|j: int| 0 <= j < exprs.len() ==> (#[trigger] views[j]).wf(),
                self@ == old(self)@ + render_sequence(views.take(i as int)),
            decreases exprs.len() - i,
        {
            proof {
                assert(views.take(i as int + 1).drop_last() =~= views.take(i as int));
                assert(views.take(i as int + 1).last() == views[i as int]);
            }
            self.push_expr(&exprs[i]);
            i += 1;
        }
        assert(views.take(i as int) =~= views);
    }

    /// Adds the fragments of the expressions as alternatives.
    fn push_alternatives(&mut self, exprs: &Vec<Expr>)
        requires
            all_wf(exprs_view(exprs@)),
        ensures
            final(self)@ == old(self)@ + render_alternatives(exprs_view(exprs@)),
        decreases exprs, 0int,
    {
        let ghost views = exprs_view(exprs@);
        proof {
            lemma_exprs_view(exprs@);
            lemma_all_wf(views);
        }
        let mut i: usize = 0;
        while i < exprs.len()
            invariant
                i <= exprs.len(),
                views == exprs_view(exprs@),
                views.len() == exprs.len(),
                forall|j: int| 0 <= j < exprs.len() ==> #[trigger] views[j] == expr_view(exprs@[j]),
                forall|j: int| 0 <= j < exprs.len() ==> (#[trigger] views[j]).wf(),
                self@ == old(self)@ + render_alternatives(views.take(i as int)),
            decreases exprs.len() - i,
        {
            proof {
                assert(views.take(i as int + 1).drop_last() =~= views.take(i as int));
                assert(views.take(i as int + 1).last() == views[i as int]);
            }
            if i > 0 {
                self.push_str("|");
            }
            self.push_expr(&exprs[i]);
            i += 1;
        }
        assert(views.take(i as int) =~= views);
    }

    /// Adds the letters of the flags of an expression.
    fn push_expr_flags(&mut self, e: &Expr)
        ensures
            final(self)@ == old(self)@ + expr_flags(e@),
        decreases e, 1int,
    {
        match e {
            Expr::Anchor(_) => {},
            Expr::Character(c, _, flags) => {
                match c {
                    Character::CharKind(_) => {},
                    Character::Group(Group::Capture { inner, .. }) => {
                        self.push_sequence_flags(inner);
                    },
                    Character::Group(Group::AnyOf { inner }) => {
                        self.push_sequence_flags(inner);
                    },
                    Character::Group(Group::Until { inner }) => {
                        self.push_sequence_flags(inner);
                    },
                    Character::Group(Group::LookAround { inner, .. }) => {
                        self.push_sequence_flags(inner);
                    },
                }
                let ghost body = self@;
                let ghost letters = flags@.map_values(|f: Flags| flag_letter(f));
                let mut i: usize = 0;
                while i < flags.len()
                    invariant
                        i <= flags.len(),
                        letters == flags@.map_values(|f: Flags| flag_letter(f)),
                        self@ == body + letters.take(i as int),
                    decreases flags.len() - i,
                {
                    let letter = match flags[i] {
                        Flags::CaseInsensitive => 'i',
                        Flags::MultiLine => 'm',
                        Flags::AllLazy => 'U',
                    };
                    self.push(letter);
                    i += 1;
                }
            },
        }
    }

    /// Adds the letters of the flags of a sequence of expressions.
    fn push_sequence_flags(&mut self, exprs: &Vec<Expr>)
        ensures
            final(self)@ == old(self)@ + sequence_flags(exprs_view(exprs@)),
        decreases exprs, 0int,
    {
        let ghost views = exprs_view(exprs@);
        proof {
            lemma_exprs_view(exprs@);
        }
        let mut i: usize = 0;
        while i < exprs.len()
            invariant
                i <= exprs.len(),
                views == exprs_view(exprs@),
                views.len() == exprs.len(),
                forall|j: int| 0 <= j < exprs.len() ==> #[trigger] views[j] == expr_view(exprs@[j]),
                self@ == old(self)@ + sequence_flags(views.take(i as int)),
            decreases exprs.len() - i,
        {
            proof {
                assert(views.take(i as int + 1).drop_last() =~= views.take(i as int));
            }
            self.push_expr_flags(&exprs[i]);
            i += 1;
        }
        assert(views.take(i as int) =~= views);
    }

    /// Adds the fragments of a whole pattern, anchors included.
    fn push_pattern(&mut self, exprs: &Vec<Expr>)
        requires
            pattern_wf(exprs_view(exprs@)),
        ensures
            final(self)@ == old(self)@ + render_sequence(exprs_view(exprs@)),
    {
        let ghost views = exprs_view(exprs@);
        proof {
            lemma_exprs_view(exprs@);
        }
        let mut i: usize = 0;
        while i < exprs.len()
            invariant
                i <= exprs.len(),
                views == exprs_view(exprs@),
                views.len() == exprs.len(),
                pattern_wf(views),
                forall|j: int| 0 <= j < exprs.len() ==> #[trigger] views[j] == expr_view(exprs@[j]),
                self@ == old(self)@ + render_sequence(views.take(i as int)),
            decreases exprs.len() - i,
        {
            proof {
                assert(views.take(i as int + 1).drop_last() =~= views.take(i as int));
                assert(views.take(i as int + 1).last() == views[i as int]);
            }
            self.push_expr(&exprs[i]);
            i += 1;
        }
        assert(views.take(i as int) =~= views);
    }

    /// The regular expression of a pattern.
    pub fn from_ast(ast: &Vec<Expr>) -> (pattern: String)
        requires
            pattern_wf(exprs_view(ast@)),
        ensures
            pattern@ == render_pattern(exprs_view(ast@)),
    {
        let mut letters = Builder::new();
        letters.push_sequence_flags(ast);
        let letters = letters.finish();
        let mut out = Builder::new();
        if letters.as_str().unicode_len() > 0 {
            out.push_str("(?");
            out.push_str(letters.as_str());
            out.push_str(")");
        }
        out.push_pattern(ast);
        out.finish()
    }
}

} // verus!
