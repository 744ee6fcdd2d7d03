//! Operator kinds, their source spellings, and the precedence relation used
//! by the postfix converter.

use vstd::prelude::*;
use crate::text::str_eq;

verus! {

#[derive(Clone, Copy, Debug, PartialEq, Eq, Structural)]
pub enum BinaryOperator {
    Add,
    Sub,
    Div,
    Mul,
    Mod,
    LessThan,
    LessThanOrEq,
    GreaterThan,
    GreaterThanOrEq,
    NotEqual,
    StrictEqual,
}

#[derive(Clone, Copy, Debug, PartialEq, Eq, Structural)]
pub enum LogicalOperator {
    Or,
    And,
}

#[derive(Clone, Copy, Debug, PartialEq, Eq, Structural)]
pub enum UnaryOperator {
    Plus,
    Minus,
    ExPoint,
    Tilde,
    TypeOf,
    Void,
    Delete,
}

#[derive(Clone, Copy, Debug, PartialEq, Eq, Structural)]
pub enum UpdateOperator {
    Increment,
    Decrement,
}

/// `=` and the compound assignments.
#[derive(Clone, Copy, Debug, PartialEq, Eq, Structural)]
pub enum AssignmentOperator {
    Assign,
    AddAssign,
    SubAssign,
    DivAssign,
    MulAssign,
    ModAssign,
}

/// Any operator that can stand in a token stream, including the two
/// parenthesis markers.
#[derive(Clone, Copy, Debug, PartialEq, Eq, Structural)]
pub enum Operator {
    UnaryOp(UnaryOperator),
    LogOp(LogicalOperator),
    UpdateOp(UpdateOperator),
    BinOp(BinaryOperator),
    AssignOp(AssignmentOperator),
    LeftParenthesis,
    RightParenthesis,
}

impl BinaryOperator {
    pub open spec fn spelling(self) -> Seq<char> {
        match self {
            BinaryOperator::Add => seq!['+'],
            BinaryOperator::Sub => seq!['-'],
            BinaryOperator::Mul => seq!['*'],
            BinaryOperator::Div => seq!['/'],
            BinaryOperator::Mod => seq!['%'],
            BinaryOperator::LessThan => seq!['<'],
            BinaryOperator::LessThanOrEq => seq!['<', '='],
            BinaryOperator::GreaterThan => seq!['>'],
            BinaryOperator::GreaterThanOrEq => seq!['>', '='],
            BinaryOperator::NotEqual => seq!['!', '='],
            BinaryOperator::StrictEqual => seq!['=', '='],
        }
    }

    /// Whether this operator binds tighter than the ordinary level.
    pub open spec fn is_high(self) -> bool {
        self is Mul || self is Div || self is Mod
    }

    pub fn as_str(&self) -> (r: &'static str)
        ensures
            r@ == self.spelling(),
    {
        match self {
            BinaryOperator::Add => {
                proof { reveal_strlit("+"); }
                "+"
            },
            BinaryOperator::Sub => {
                proof { reveal_strlit("-"); }
                "-"
            },
            BinaryOperator::Mul => {
                proof { reveal_strlit("*"); }
                "*"
            },
            BinaryOperator::Div => {
                proof { reveal_strlit("/"); }
                "/"
            },
            BinaryOperator::Mod => {
                proof { reveal_strlit("%"); }
                "%"
            },
            BinaryOperator::LessThan => {
                proof { reveal_strlit("<"); }
                "<"
            },
            BinaryOperator::LessThanOrEq => {
                proof { reveal_strlit("<="); }
                "<="
            },
            BinaryOperator::GreaterThan => {
                proof { reveal_strlit(">"); }
                ">"
            },
            BinaryOperator::GreaterThanOrEq => {
                proof { reveal_strlit(">="); }
                ">="
            },
            BinaryOperator::NotEqual => {
                proof { reveal_strlit("!="); }
                "!="
            },
            BinaryOperator::StrictEqual => {
                proof { reveal_strlit("=="); }
                "=="
            },
        }
    }

    /// The operator spelled `s`, if any.
    pub fn from_str(s: &str) -> (r: Option<BinaryOperator>)
        ensures
            match r {
                Some(op) => op.spelling() == s@,
                None => forall|op: BinaryOperator| op.spelling() != s@,
            },
    {
        let all = [
            BinaryOperator::Add,
            BinaryOperator::Sub,
            BinaryOperator::Mul,
            BinaryOperator::Div,
            BinaryOperator::Mod,
            BinaryOperator::LessThan,
            BinaryOperator::LessThanOrEq,
            BinaryOperator::GreaterThan,
            BinaryOperator::GreaterThanOrEq,
            BinaryOperator::NotEqual,
            BinaryOperator::StrictEqual,
        ];
        let mut i: usize = 0;
        while i < 11
            invariant
                forall|j: int| 0 <= j < i ==> (#[trigger] all@[j]).spelling() != s@,
                all@ == seq![
                    BinaryOperator::Add,
                    BinaryOperator::Sub,
                    BinaryOperator::Mul,
                    BinaryOperator::Div,
                    BinaryOperator::Mod,
                    BinaryOperator::LessThan,
                    BinaryOperator::LessThanOrEq,
                    BinaryOperator::GreaterThan,
                    BinaryOperator::GreaterThanOrEq,
                    BinaryOperator::NotEqual,
                    BinaryOperator::StrictEqual,
                ],
            decreases 11 - i,
        {
            let op = all[i];
            if str_eq(op.as_str(), s) {
                return Some(op);
            }
            i = i + 1;
        }
        assert forall|op: BinaryOperator| op.spelling() != s@ by {
            match op {
                BinaryOperator::Add => assert(all@[0] == op),
                BinaryOperator::Sub => assert(all@[1] == op),
                BinaryOperator::Mul => assert(all@[2] == op),
                BinaryOperator::Div => assert(all@[3] == op),
                BinaryOperator::Mod => assert(all@[4] == op),
                BinaryOperator::LessThan => assert(all@[5] == op),
                BinaryOperator::LessThanOrEq => assert(all@[6] == op),
                BinaryOperator::GreaterThan => assert(all@[7] == op),
                BinaryOperator::GreaterThanOrEq => assert(all@[8] == op),
                BinaryOperator::NotEqual => assert(all@[9] == op),
                BinaryOperator::StrictEqual => assert(all@[10] == op),
            }
        }
        None
    }

    /// Two operators with one spelling are the same operator.
    pub proof fn lemma_spelling_injective(a: BinaryOperator, b: BinaryOperator)
        requires
            a.spelling() == b.spelling(),
        ensures
            a == b,
    {
        match a {
            BinaryOperator::Add => match b {
                BinaryOperator::Sub => assert(a.spelling()[0] == '+' && b.spelling()[0] == '-'),
                BinaryOperator::Mul => assert(a.spelling()[0] == '+' && b.spelling()[0] == '*'),
                BinaryOperator::Div => assert(a.spelling()[0] == '+' && b.spelling()[0] == '/'),
                BinaryOperator::Mod => assert(a.spelling()[0] == '+' && b.spelling()[0] == '%'),
                BinaryOperator::LessThan => assert(a.spelling()[0] == '+' && b.spelling()[0] == '<'),
                BinaryOperator::LessThanOrEq => assert(a.spelling().len() == 1 && b.spelling().len() == 2),
                BinaryOperator::GreaterThan => assert(a.spelling()[0] == '+' && b.spelling()[0] == '>'),
                BinaryOperator::GreaterThanOrEq => assert(a.spelling().len() == 1 && b.spelling().len() == 2),
                BinaryOperator::NotEqual => assert(a.spelling().len() == 1 && b.spelling().len() == 2),
                BinaryOperator::StrictEqual => assert(a.spelling().len() == 1 && b.spelling().len() == 2),
                _ => {},
            },
            BinaryOperator::Sub => match b {
                BinaryOperator::Add => assert(a.spelling()[0] == '-' && b.spelling()[0] == '+'),
                BinaryOperator::Mul => assert(a.spelling()[0] == '-' && b.spelling()[0] == '*'),
                BinaryOperator::Div => assert(a.spelling()[0] == '-' && b.spelling()[0] == '/'),
                BinaryOperator::Mod => assert(a.spelling()[0] == '-' && b.spelling()[0] == '%'),
                BinaryOperator::LessThan => assert(a.spelling()[0] == '-' && b.spelling()[0] == '<'),
                BinaryOperator::LessThanOrEq => assert(a.spelling().len() == 1 && b.spelling().len() == 2),
                BinaryOperator::GreaterThan => assert(a.spelling()[0] == '-' && b.spelling()[0] == '>'),
                BinaryOperator::GreaterThanOrEq => assert(a.spelling().len() == 1 && b.spelling().len() == 2),
                BinaryOperator::NotEqual => assert(a.spelling().len() == 1 && b.spelling().len() == 2),
                BinaryOperator::StrictEqual => assert(a.spelling().len() == 1 && b.spelling().len() == 2),
                _ => {},
            },
            BinaryOperator::Mul => match b {
                BinaryOperator::Add => assert(a.spelling()[0] == '*' && b.spelling()[0] == '+'),
                BinaryOperator::Sub => assert(a.spelling()[0] == '*' && b.spelling()[0] == '-'),
                BinaryOperator::Div => assert(a.spelling()[0] == '*' && b.spelling()[0] == '/'),
                BinaryOperator::Mod => assert(a.spelling()[0] == '*' && b.spelling()[0] == '%'),
                BinaryOperator::LessThan => assert(a.spelling()[0] == '*' && b.spelling()[0] == '<'),
                BinaryOperator::LessThanOrEq => assert(a.spelling().len() == 1 && b.spelling().len() == 2),
                BinaryOperator::GreaterThan => assert(a.spelling()[0] == '*' && b.spelling()[0] == '>'),
                BinaryOperator::GreaterThanOrEq => assert(a.spelling().len() == 1 && b.spelling().len() == 2),
                BinaryOperator::NotEqual => assert(a.spelling().len() == 1 && b.spelling().len() == 2),
                BinaryOperator::StrictEqual => assert(a.spelling().len() == 1 && b.spelling().len() == 2),
                _ => {},
            },
            BinaryOperator::Div => match b {
                BinaryOperator::Add => assert(a.spelling()[0] == '/' && b.spelling()[0] == '+'),
                BinaryOperator::Sub => assert(a.spelling()[0] == '/' && b.spelling()[0] == '-'),
                BinaryOperator::Mul => assert(a.spelling()[0] == '/' && b.spelling()[0] == '*'),
                BinaryOperator::Mod => assert(a.spelling()[0] == '/' && b.spelling()[0] == '%'),
                BinaryOperator::LessThan => assert(a.spelling()[0] == '/' && b.spelling()[0] == '<'),
                BinaryOperator::LessThanOrEq => assert(a.spelling().len() == 1 && b.spelling().len() == 2),
                BinaryOperator::GreaterThan => assert(a.spelling()[0] == '/' && b.spelling()[0] == '>'),
                BinaryOperator::GreaterThanOrEq => assert(a.spelling().len() == 1 && b.spelling().len() == 2),
                BinaryOperator::NotEqual => assert(a.spelling().len() == 1 && b.spelling().len() == 2),
                BinaryOperator::StrictEqual => assert(a.spelling().len() == 1 && b.spelling().len() == 2),
                _ => {},
            },
            BinaryOperator::Mod => match b {
                BinaryOperator::Add => assert(a.spelling()[0] == '%' && b.spelling()[0] == '+'),
                BinaryOperator::Sub => assert(a.spelling()[0] == '%' && b.spelling()[0] == '-'),
                BinaryOperator::Mul => assert(a.spelling()[0] == '%' && b.spelling()[0] == '*'),
                BinaryOperator::Div => assert(a.spelling()[0] == '%' && b.spelling()[0] == '/'),
                BinaryOperator::LessThan => assert(a.spelling()[0] == '%' && b.spelling()[0] == '<'),
                BinaryOperator::LessThanOrEq => assert(a.spelling().len() == 1 && b.spelling().len() == 2),
                BinaryOperator::GreaterThan => assert(a.spelling()[0] == '%' && b.spelling()[0] == '>'),
                BinaryOperator::GreaterThanOrEq => assert(a.spelling().len() == 1 && b.spelling().len() == 2),
                BinaryOperator::NotEqual => assert(a.spelling().len() == 1 && b.spelling().len() == 2),
                BinaryOperator::StrictEqual => assert(a.spelling().len() == 1 && b.spelling().len() == 2),
                _ => {},
            },
            BinaryOperator::LessThan => match b {
                BinaryOperator::Add => assert(a.spelling()[0] == '<' && b.spelling()[0] == '+'),
                BinaryOperator::Sub => assert(a.spelling()[0] == '<' && b.spelling()[0] == '-'),
                BinaryOperator::Mul => assert(a.spelling()[0] == '<' && b.spelling()[0] == '*'),
                BinaryOperator::Div => assert(a.spelling()[0] == '<' && b.spelling()[0] == '/'),
                BinaryOperator::Mod => assert(a.spelling()[0] == '<' && b.spelling()[0] == '%'),
                BinaryOperator::LessThanOrEq => assert(a.spelling().len() == 1 && b.spelling().len() == 2),
                BinaryOperator::GreaterThan => assert(a.spelling()[0] == '<' && b.spelling()[0] == '>'),
                BinaryOperator::GreaterThanOrEq => assert(a.spelling().len() == 1 && b.spelling().len() == 2),
                BinaryOperator::NotEqual => assert(a.spelling().len() == 1 && b.spelling().len() == 2),
                BinaryOperator::StrictEqual => assert(a.spelling().len() == 1 && b.spelling().len() == 2),
                _ => {},
            },
            BinaryOperator::LessThanOrEq => match b {
                BinaryOperator::Add => assert(a.spelling().len() == 2 && b.spelling().len() == 1),
                BinaryOperator::Sub => assert(a.spelling().len() == 2 && b.spelling().len() == 1),
                BinaryOperator::Mul => assert(a.spelling().len() == 2 && b.spelling().len() == 1),
                BinaryOperator::Div => assert(a.spelling().len() == 2 && b.spelling().len() == 1),
                BinaryOperator::Mod => assert(a.spelling().len() == 2 && b.spelling().len() == 1),
                BinaryOperator::LessThan => assert(a.spelling().len() == 2 && b.spelling().len() == 1),
                BinaryOperator::GreaterThan => assert(a.spelling().len() == 2 && b.spelling().len() == 1),
                BinaryOperator::GreaterThanOrEq => assert(a.spelling()[0] == '<' && b.spelling()[0] == '>'),
                BinaryOperator::NotEqual => assert(a.spelling()[0] == '<' && b.spelling()[0] == '!'),
                BinaryOperator::StrictEqual => assert(a.spelling()[0] == '<' && b.spelling()[0] == '='),
                _ => {},
            },
            BinaryOperator::GreaterThan => match b {
                BinaryOperator::Add => assert(a.spelling()[0] == '>' && b.spelling()[0] == '+'),
                BinaryOperator::Sub => assert(a.spelling()[0] == '>' && b.spelling()[0] == '-'),
                BinaryOperator::Mul => assert(a.spelling()[0] == '>' && b.spelling()[0] == '*'),
                BinaryOperator::Div => assert(a.spelling()[0] == '>' && b.spelling()[0] == '/'),
                BinaryOperator::Mod => assert(a.spelling()[0] == '>' && b.spelling()[0] == '%'),
                BinaryOperator::LessThan => assert(a.spelling()[0] == '>' && b.spelling()[0] == '<'),
                BinaryOperator::LessThanOrEq => assert(a.spelling().len() == 1 && b.spelling().len() == 2),
                BinaryOperator::GreaterThanOrEq => assert(a.spelling().len() == 1 && b.spelling().len() == 2),
                BinaryOperator::NotEqual => assert(a.spelling().len() == 1 && b.spelling().len() == 2),
                BinaryOperator::StrictEqual => assert(a.spelling().len() == 1 && b.spelling().len() == 2),
                _ => {},
            },
            BinaryOperator::GreaterThanOrEq => match b {
                BinaryOperator::Add => assert(a.spelling().len() == 2 && b.spelling().len() == 1),
                BinaryOperator::Sub => assert(a.spelling().len() == 2 && b.spelling().len() == 1),
                BinaryOperator::Mul => assert(a.spelling().len() == 2 && b.spelling().len() == 1),
                BinaryOperator::Div => assert(a.spelling().len() == 2 && b.spelling().len() == 1),
                BinaryOperator::Mod => assert(a.spelling().len() == 2 && b.spelling().len() == 1),
                BinaryOperator::LessThan => assert(a.spelling().len() == 2 && b.spelling().len() == 1),
                BinaryOperator::LessThanOrEq => assert(a.spelling()[0] == '>' && b.spelling()[0] == '<'),
                BinaryOperator::GreaterThan => assert(a.spelling().len() == 2 && b.spelling().len() == 1),
                BinaryOperator::NotEqual => assert(a.spelling()[0] == '>' && b.spelling()[0] == '!'),
                BinaryOperator::StrictEqual => assert(a.spelling()[0] == '>' && b.spelling()[0] == '='),
                _ => {},
            },
            BinaryOperator::NotEqual => match b {
                BinaryOperator::Add => assert(a.spelling().len() == 2 && b.spelling().len() == 1),
                BinaryOperator::Sub => assert(a.spelling().len() == 2 && b.spelling().len() == 1),
                BinaryOperator::Mul => assert(a.spelling().len() == 2 && b.spelling().len() == 1),
                BinaryOperator::Div => assert(a.spelling().len() == 2 && b.spelling().len() == 1),
                BinaryOperator::Mod => assert(a.spelling().len() == 2 && b.spelling().len() == 1),
                BinaryOperator::LessThan => assert(a.spelling().len() == 2 && b.spelling().len() == 1),
                BinaryOperator::LessThanOrEq => assert(a.spelling()[0] == '!' && b.spelling()[0] == '<'),
                BinaryOperator::GreaterThan => assert(a.spelling().len() == 2 && b.spelling().len() == 1),
                BinaryOperator::GreaterThanOrEq => assert(a.spelling()[0] == '!' && b.spelling()[0] == '>'),
                BinaryOperator::StrictEqual => assert(a.spelling()[0] == '!' && b.spelling()[0] == '='),
                _ => {},
            },
            BinaryOperator::StrictEqual => match b {
                BinaryOperator::Add => assert(a.spelling().len() == 2 && b.spelling().len() == 1),
                BinaryOperator::Sub => assert(a.spelling().len() == 2 && b.spelling().len() == 1),
                BinaryOperator::Mul => assert(a.spelling().len() == 2 && b.spelling().len() == 1),
                BinaryOperator::Div => assert(a.spelling().len() == 2 && b.spelling().len() == 1),
                BinaryOperator::Mod => assert(a.spelling().len() == 2 && b.spelling().len() == 1),
                BinaryOperator::LessThan => assert(a.spelling().len() == 2 && b.spelling().len() == 1),
                BinaryOperator::LessThanOrEq => assert(a.spelling()[0] == '=' && b.spelling()[0] == '<'),
                BinaryOperator::GreaterThan => assert(a.spelling().len() == 2 && b.spelling().len() == 1),
                BinaryOperator::GreaterThanOrEq => assert(a.spelling()[0] == '=' && b.spelling()[0] == '>'),
                BinaryOperator::NotEqual => assert(a.spelling()[0] == '=' && b.spelling()[0] == '!'),
                _ => {},
            },
        }
    }
}

impl LogicalOperator {
    pub open spec fn spelling(self) -> Seq<char> {
        match self {
            LogicalOperator::Or => seq!['|', '|'],
            LogicalOperator::And => seq!['&', '&'],
        }
    }

    pub fn as_str(&self) -> (r: &'static str)
        ensures
            r@ == self.spelling(),
    {
        match self {
            LogicalOperator::Or => {
                proof { reveal_strlit("||"); }
                "||"
            },
            LogicalOperator::And => {
                proof { reveal_strlit("&&"); }
                "&&"
            },
        }
    }

    /// The operator spelled `s`, if any.
    pub fn from_str(s: &str) -> (r: Option<LogicalOperator>)
        ensures
            match r {
                Some(op) => op.spelling() == s@,
                None => forall|op: LogicalOperator| op.spelling() != s@,
            },
    {
        if str_eq(s, LogicalOperator::Or.as_str()) {
            Some(LogicalOperator::Or)
        } else if str_eq(s, LogicalOperator::And.as_str()) {
            Some(LogicalOperator::And)
        } else {
            assert forall|op: LogicalOperator| op.spelling() != s@ by {
                match op {
                    LogicalOperator::Or => {},
                    LogicalOperator::And => {},
                }
            }
            None
        }
    }

    /// Two operators with one spelling are the same operator.
    pub proof fn lemma_spelling_injective(a: LogicalOperator, b: LogicalOperator)
        requires
            a.spelling() == b.spelling(),
        ensures
            a == b,
    {
        match a {
            LogicalOperator::Or => match b {
                LogicalOperator::And => assert(a.spelling()[0] == '|' && b.spelling()[0] == '&'),
                _ => {},
            },
            LogicalOperator::And => match b {
                LogicalOperator::Or => assert(a.spelling()[0] == '&' && b.spelling()[0] == '|'),
                _ => {},
            },
        }
    }
}

impl UnaryOperator {
    pub open spec fn spelling(self) -> Seq<char> {
        match self {
            UnaryOperator::Plus => seq!['+'],
            UnaryOperator::Minus => seq!['-'],
            UnaryOperator::ExPoint => seq!['!'],
            UnaryOperator::Tilde => seq!['~'],
            UnaryOperator::TypeOf => seq!['t', 'y', 'p', 'e', 'o', 'f'],
            UnaryOperator::Void => seq!['v', 'o', 'i', 'd'],
            UnaryOperator::Delete => seq!['d', 'e', 'l', 'e', 't', 'e'],
        }
    }

    pub fn as_str(&self) -> (r: &'static str)
        ensures
            r@ == self.spelling(),
    {
        match self {
            UnaryOperator::Plus => {
                proof { reveal_strlit("+"); }
                "+"
            },
            UnaryOperator::Minus => {
                proof { reveal_strlit("-"); }
                "-"
            },
            UnaryOperator::ExPoint => {
                proof { reveal_strlit("!"); }
                "!"
            },
            UnaryOperator::Tilde => {
                proof { reveal_strlit("~"); }
                "~"
            },
            UnaryOperator::TypeOf => {
                proof { reveal_strlit("typeof"); }
                "typeof"
            },
            UnaryOperator::Void => {
                proof { reveal_strlit("void"); }
                "void"
            },
            UnaryOperator::Delete => {
                proof { reveal_strlit("delete"); }
                "delete"
            },
        }
    }

    /// The operator spelled `s`, if any.
    pub fn from_str(s: &str) -> (r: Option<UnaryOperator>)
        ensures
            match r {
                Some(op) => op.spelling() == s@,
                None => forall|op: UnaryOperator| op.spelling() != s@,
            },
    {
        if str_eq(s, UnaryOperator::Plus.as_str()) {
            Some(UnaryOperator::Plus)
        } else if str_eq(s, UnaryOperator::Minus.as_str()) {
            Some(UnaryOperator::Minus)
        } else if str_eq(s, UnaryOperator::ExPoint.as_str()) {
            Some(UnaryOperator::ExPoint)
        } else if str_eq(s, UnaryOperator::Tilde.as_str()) {
            Some(UnaryOperator::Tilde)
        } else if str_eq(s, UnaryOperator::TypeOf.as_str()) {
            Some(UnaryOperator::TypeOf)
        } else if str_eq(s, UnaryOperator::Void.as_str()) {
            Some(UnaryOperator::Void)
        } else if str_eq(s, UnaryOperator::Delete.as_str()) {
            Some(UnaryOperator::Delete)
        } else {
            assert forall|op: UnaryOperator| op.spelling() != s@ by {
                match op {
                    UnaryOperator::Plus => {},
                    UnaryOperator::Minus => {},
                    UnaryOperator::ExPoint => {},
                    UnaryOperator::Tilde => {},
                    UnaryOperator::TypeOf => {},
                    UnaryOperator::Void => {},
                    UnaryOperator::Delete => {},
                }
            }
            None
        }
    }

    /// Two operators with one spelling are the same operator.
    pub proof fn lemma_spelling_injective(a: UnaryOperator, b: UnaryOperator)
        requires
            a.spelling() == b.spelling(),
        ensures
            a == b,
    {
        match a {
            UnaryOperator::Plus => match b {
                UnaryOperator::Minus => assert(a.spelling()[0] == '+' && b.spelling()[0] == '-'),
                UnaryOperator::ExPoint => assert(a.spelling()[0] == '+' && b.spelling()[0] == '!'),
                UnaryOperator::Tilde => assert(a.spelling()[0] == '+' && b.spelling()[0] == '~'),
                UnaryOperator::TypeOf => assert(a.spelling().len() == 1 && b.spelling().len() == 6),
                UnaryOperator::Void => assert(a.spelling().len() == 1 && b.spelling().len() == 4),
                UnaryOperator::Delete => assert(a.spelling().len() == 1 && b.spelling().len() == 6),
                _ => {},
            },
            UnaryOperator::Minus => match b {
                UnaryOperator::Plus => assert(a.spelling()[0] == '-' && b.spelling()[0] == '+'),
                UnaryOperator::ExPoint => assert(a.spelling()[0] == '-' && b.spelling()[0] == '!'),
                UnaryOperator::Tilde => assert(a.spelling()[0] == '-' && b.spelling()[0] == '~'),
                UnaryOperator::TypeOf => assert(a.spelling().len() == 1 && b.spelling().len() == 6),
                UnaryOperator::Void => assert(a.spelling().len() == 1 && b.spelling().len() == 4),
                UnaryOperator::Delete => assert(a.spelling().len() == 1 && b.spelling().len() == 6),
                _ => {},
            },
            UnaryOperator::ExPoint => match b {
                UnaryOperator::Plus => assert(a.spelling()[0] == '!' && b.spelling()[0] == '+'),
                UnaryOperator::Minus => assert(a.spelling()[0] == '!' && b.spelling()[0] == '-'),
                UnaryOperator::Tilde => assert(a.spelling()[0] == '!' && b.spelling()[0] == '~'),
                UnaryOperator::TypeOf => assert(a.spelling().len() == 1 && b.spelling().len() == 6),
                UnaryOperator::Void => assert(a.spelling().len() == 1 && b.spelling().len() == 4),
                UnaryOperator::Delete => assert(a.spelling().len() == 1 && b.spelling().len() == 6),
                _ => {},
            },
            UnaryOperator::Tilde => match b {
                UnaryOperator::Plus => assert(a.spelling()[0] == '~' && b.spelling()[0] == '+'),
                UnaryOperator::Minus => assert(a.spelling()[0] == '~' && b.spelling()[0] == '-'),
                UnaryOperator::ExPoint => assert(a.spelling()[0] == '~' && b.spelling()[0] == '!'),
                UnaryOperator::TypeOf => assert(a.spelling().len() == 1 && b.spelling().len() == 6),
                UnaryOperator::Void => assert(a.spelling().len() == 1 && b.spelling().len() == 4),
                UnaryOperator::Delete => assert(a.spelling().len() == 1 && b.spelling().len() == 6),
                _ => {},
            },
            UnaryOperator::TypeOf => match b {
                UnaryOperator::Plus => assert(a.spelling().len() == 6 && b.spelling().len() == 1),
                UnaryOperator::Minus => assert(a.spelling().len() == 6 && b.spelling().len() == 1),
                UnaryOperator::ExPoint => assert(a.spelling().len() == 6 && b.spelling().len() == 1),
                UnaryOperator::Tilde => assert(a.spelling().len() == 6 && b.spelling().len() == 1),
                UnaryOperator::Void => assert(a.spelling().len() == 6 && b.spelling().len() == 4),
                UnaryOperator::Delete => assert(a.spelling()[0] == 't' && b.spelling()[0] == 'd'),
                _ => {},
            },
            UnaryOperator::Void => match b {
                UnaryOperator::Plus => assert(a.spelling().len() == 4 && b.spelling().len() == 1),
                UnaryOperator::Minus => assert(a.spelling().len() == 4 && b.spelling().len() == 1),
                UnaryOperator::ExPoint => assert(a.spelling().len() == 4 && b.spelling().len() == 1),
                UnaryOperator::Tilde => assert(a.spelling().len() == 4 && b.spelling().len() == 1),
                UnaryOperator::TypeOf => assert(a.spelling().len() == 4 && b.spelling().len() == 6),
                UnaryOperator::Delete => assert(a.spelling().len() == 4 && b.spelling().len() == 6),
                _ => {},
            },
            UnaryOperator::Delete => match b {
                UnaryOperator::Plus => assert(a.spelling().len() == 6 && b.spelling().len() == 1),
                UnaryOperator::Minus => assert(a.spelling().len() == 6 && b.spelling().len() == 1),
                UnaryOperator::ExPoint => assert(a.spelling().len() == 6 && b.spelling().len() == 1),
                UnaryOperator::Tilde => assert(a.spelling().len() == 6 && b.spelling().len() == 1),
                UnaryOperator::TypeOf => assert(a.spelling()[0] == 'd' && b.spelling()[0] == 't'),
                UnaryOperator::Void => assert(a.spelling().len() == 6 && b.spelling().len() == 4),
                _ => {},
            },
        }
    }
}

impl UpdateOperator {
    pub open spec fn spelling(self) -> Seq<char> {
        match self {
            UpdateOperator::Increment => seq!['+', '+'],
            UpdateOperator::Decrement => seq!['-', '-'],
        }
    }

    pub fn as_str(&self) -> (r: &'static str)
        ensures
            r@ == self.spelling(),
    {
        match self {
            UpdateOperator::Increment => {
                proof { reveal_strlit("++"); }
                "++"
            },
            UpdateOperator::Decrement => {
                proof { reveal_strlit("--"); }
                "--"
            },
        }
    }

    /// The operator spelled `s`, if any.
    pub fn from_str(s: &str) -> (r: Option<UpdateOperator>)
        ensures
            match r {
                Some(op) => op.spelling() == s@,
                None => forall|op: UpdateOperator| op.spelling() != s@,
            },
    {
        if str_eq(s, UpdateOperator::Increment.as_str()) {
            Some(UpdateOperator::Increment)
        } else if str_eq(s, UpdateOperator::Decrement.as_str()) {
            Some(UpdateOperator::Decrement)
        } else {
            assert forall|op: UpdateOperator| op.spelling() != s@ by {
                match op {
                    UpdateOperator::Increment => {},
                    UpdateOperator::Decrement => {},
                }
            }
            None
        }
    }

    /// Two operators with one spelling are the same operator.
    pub proof fn lemma_spelling_injective(a: UpdateOperator, b: UpdateOperator)
        requires
            a.spelling() == b.spelling(),
        ensures
            a == b,
    {
        match a {
            UpdateOperator::Increment => match b {
                UpdateOperator::Decrement => assert(a.spelling()[0] == '+' && b.spelling()[0] == '-'),
                _ => {},
            },
            UpdateOperator::Decrement => match b {
                UpdateOperator::Increment => assert(a.spelling()[0] == '-' && b.spelling()[0] == '+'),
                _ => {},
            },
        }
    }
}

impl AssignmentOperator {
    pub open spec fn spelling(self) -> Seq<char> {
        match self {
            AssignmentOperator::Assign => seq!['='],
            AssignmentOperator::AddAssign => seq!['+', '='],
            AssignmentOperator::SubAssign => seq!['-', '='],
            AssignmentOperator::DivAssign => seq!['/', '='],
            AssignmentOperator::MulAssign => seq!['*', '='],
            AssignmentOperator::ModAssign => seq!['%', '='],
        }
    }

    pub fn as_str(&self) -> (r: &'static str)
        ensures
            r@ == self.spelling(),
    {
        match self {
            AssignmentOperator::Assign => {
                proof { reveal_strlit("="); }
                "="
            },
            AssignmentOperator::AddAssign => {
                proof { reveal_strlit("+="); }
                "+="
            },
            AssignmentOperator::SubAssign => {
                proof { reveal_strlit("-="); }
                "-="
            },
            AssignmentOperator::DivAssign => {
                proof { reveal_strlit("/="); }
                "/="
            },
            AssignmentOperator::MulAssign => {
                proof { reveal_strlit("*="); }
                "*="
            },
            AssignmentOperator::ModAssign => {
                proof { reveal_strlit("%="); }
                "%="
            },
        }
    }

    /// The operator spelled `s`, if any.
    pub fn from_str(s: &str) -> (r: Option<AssignmentOperator>)
        ensures
            match r {
                Some(op) => op.spelling() == s@,
                None => forall|op: AssignmentOperator| op.spelling() != s@,
            },
    {
        if str_eq(s, AssignmentOperator::Assign.as_str()) {
            Some(AssignmentOperator::Assign)
        } else if str_eq(s, AssignmentOperator::AddAssign.as_str()) {
            Some(AssignmentOperator::AddAssign)
        } else if str_eq(s, AssignmentOperator::SubAssign.as_str()) {
            Some(AssignmentOperator::SubAssign)
        } else if str_eq(s, AssignmentOperator::DivAssign.as_str()) {
            Some(AssignmentOperator::DivAssign)
        } else if str_eq(s, AssignmentOperator::MulAssign.as_str()) {
            Some(AssignmentOperator::MulAssign)
        } else if str_eq(s, AssignmentOperator::ModAssign.as_str()) {
            Some(AssignmentOperator::ModAssign)
        } else {
            assert forall|op: AssignmentOperator| op.spelling() != s@ by {
                match op {
                    AssignmentOperator::Assign => {},
                    AssignmentOperator::AddAssign => {},
                    AssignmentOperator::SubAssign => {},
                    AssignmentOperator::DivAssign => {},
                    AssignmentOperator::MulAssign => {},
                    AssignmentOperator::ModAssign => {},
                }
            }
            None
        }
    }

    /// Two operators with one spelling are the same operator.
    pub proof fn lemma_spelling_injective(a: AssignmentOperator, b: AssignmentOperator)
        requires
            a.spelling() == b.spelling(),
        ensures
            a == b,
    {
        match a {
            AssignmentOperator::Assign => match b {
                AssignmentOperator::AddAssign => assert(a.spelling().len() == 1 && b.spelling().len() == 2),
                AssignmentOperator::SubAssign => assert(a.spelling().len() == 1 && b.spelling().len() == 2),
                AssignmentOperator::DivAssign => assert(a.spelling().len() == 1 && b.spelling().len() == 2),
                AssignmentOperator::MulAssign => assert(a.spelling().len() == 1 && b.spelling().len() == 2),
                AssignmentOperator::ModAssign => assert(a.spelling().len() == 1 && b.spelling().len() == 2),
                _ => {},
            },
            AssignmentOperator::AddAssign => match b {
                AssignmentOperator::Assign => assert(a.spelling().len() == 2 && b.spelling().len() == 1),
                AssignmentOperator::SubAssign => assert(a.spelling()[0] == '+' && b.spelling()[0] == '-'),
                AssignmentOperator::DivAssign => assert(a.spelling()[0] == '+' && b.spelling()[0] == '/'),
                AssignmentOperator::MulAssign => assert(a.spelling()[0] == '+' && b.spelling()[0] == '*'),
                AssignmentOperator::ModAssign => assert(a.spelling()[0] == '+' && b.spelling()[0] == '%'),
                _ => {},
            },
            AssignmentOperator::SubAssign => match b {
                AssignmentOperator::Assign => assert(a.spelling().len() == 2 && b.spelling().len() == 1),
                AssignmentOperator::AddAssign => assert(a.spelling()[0] == '-' && b.spelling()[0] == '+'),
                AssignmentOperator::DivAssign => assert(a.spelling()[0] == '-' && b.spelling()[0] == '/'),
                AssignmentOperator::MulAssign => assert(a.spelling()[0] == '-' && b.spelling()[0] == '*'),
                AssignmentOperator::ModAssign => assert(a.spelling()[0] == '-' && b.spelling()[0] == '%'),
                _ => {},
            },
            AssignmentOperator::DivAssign => match b {
                AssignmentOperator::Assign => assert(a.spelling().len() == 2 && b.spelling().len() == 1),
                AssignmentOperator::AddAssign => assert(a.spelling()[0] == '/' && b.spelling()[0] == '+'),
                AssignmentOperator::SubAssign => assert(a.spelling()[0] == '/' && b.spelling()[0] == '-'),
                AssignmentOperator::MulAssign => assert(a.spelling()[0] == '/' && b.spelling()[0] == '*'),
                AssignmentOperator::ModAssign => assert(a.spelling()[0] == '/' && b.spelling()[0] == '%'),
                _ => {},
            },
            AssignmentOperator::MulAssign => match b {
                AssignmentOperator::Assign => assert(a.spelling().len() == 2 && b.spelling().len() == 1),
                AssignmentOperator::AddAssign => assert(a.spelling()[0] == '*' && b.spelling()[0] == '+'),
                AssignmentOperator::SubAssign => assert(a.spelling()[0] == '*' && b.spelling()[0] == '-'),
                AssignmentOperator::DivAssign => assert(a.spelling()[0] == '*' && b.spelling()[0] == '/'),
                AssignmentOperator::ModAssign => assert(a.spelling()[0] == '*' && b.spelling()[0] == '%'),
                _ => {},
            },
            AssignmentOperator::ModAssign => match b {
                AssignmentOperator::Assign => assert(a.spelling().len() == 2 && b.spelling().len() == 1),
                AssignmentOperator::AddAssign => assert(a.spelling()[0] == '%' && b.spelling()[0] == '+'),
                AssignmentOperator::SubAssign => assert(a.spelling()[0] == '%' && b.spelling()[0] == '-'),
                AssignmentOperator::DivAssign => assert(a.spelling()[0] == '%' && b.spelling()[0] == '/'),
                AssignmentOperator::MulAssign => assert(a.spelling()[0] == '%' && b.spelling()[0] == '*'),
                _ => {},
            },
        }
    }
}

impl Operator {
    pub open spec fn spelling(self) -> Seq<char> {
        match self {
            Operator::UnaryOp(o) => o.spelling(),
            Operator::LogOp(o) => o.spelling(),
            Operator::UpdateOp(o) => o.spelling(),
            Operator::BinOp(o) => o.spelling(),
            Operator::AssignOp(o) => o.spelling(),
            Operator::LeftParenthesis => seq!['('],
            Operator::RightParenthesis => seq![')'],
        }
    }

    pub fn as_str(&self) -> (r: &'static str)
        ensures
            r@ == self.spelling(),
    {
        match self {
            Operator::UnaryOp(o) => o.as_str(),
            Operator::LogOp(o) => o.as_str(),
            Operator::UpdateOp(o) => o.as_str(),
            Operator::BinOp(o) => o.as_str(),
            Operator::AssignOp(o) => o.as_str(),
            Operator::LeftParenthesis => {
                proof { reveal_strlit("("); }
                "("
            },
            Operator::RightParenthesis => {
                proof { reveal_strlit(")"); }
                ")"
            },
        }
    }
}

/// The partial precedence relation used by the postfix converter.
pub trait Precedence {
    /// `a` is to be applied before an incoming `b`.
    spec fn has_precedence(a: &Self, b: &Self) -> bool;

    spec fn left_associative(&self) -> bool;

    fn get_precedence(a: &Self, b: &Self) -> (r: bool)
        ensures
            r == Self::has_precedence(a, b);

    fn is_left_associative(&self) -> (r: bool)
        ensures
            r == self.left_associative();
}

impl Precedence for BinaryOperator {
    /// Only `*`, `/` and `%` take precedence, over any binary operator.
    open spec fn has_precedence(a: &Self, b: &Self) -> bool {
        a.is_high()
    }

    open spec fn left_associative(&self) -> bool {
        *self is Div || *self is Sub
    }

    fn get_precedence(a: &Self, b: &Self) -> (r: bool) {
        match a {
            BinaryOperator::Mul => true,
            BinaryOperator::Div => true,
            BinaryOperator::Mod => true,
            _ => false,
        }
    }

    fn is_left_associative(&self) -> (r: bool) {
        match self {
            BinaryOperator::Div => true,
            BinaryOperator::Sub => true,
            _ => false,
        }
    }
}

impl Precedence for Operator {
    /// A unary operator precedes a binary one; a binary operator precedes
    /// any non-binary one; between binary operators the binary relation
    /// decides; nothing else takes precedence.
    open spec fn has_precedence(a: &Self, b: &Self) -> bool {
        match (*a, *b) {
            (Operator::UnaryOp(_), Operator::BinOp(_)) => true,
            (Operator::BinOp(x), Operator::BinOp(y)) => BinaryOperator::has_precedence(&x, &y),
            (Operator::BinOp(_), _) => true,
            _ => false,
        }
    }

    open spec fn left_associative(&self) -> bool {
        match *self {
            Operator::BinOp(op) => op.left_associative(),
            _ => false,
        }
    }

    fn get_precedence(a: &Self, b: &Self) -> (r: bool) {
        match (a, b) {
            (Operator::UnaryOp(_), Operator::BinOp(_)) => true,
            (Operator::BinOp(x), Operator::BinOp(y)) => BinaryOperator::get_precedence(x, y),
            (Operator::BinOp(_), _) => true,
            _ => false,
        }
    }

    fn is_left_associative(&self) -> (r: bool) {
        match self {
            Operator::BinOp(op) => op.is_left_associative(),
            _ => false,
        }
    }
}

} // verus!
