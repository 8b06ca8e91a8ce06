//! The token alphabet: operators, variable references and truth values.

use vstd::prelude::*;

verus! {

/// The six kinds of node a formula can be grown from: the four binary
/// connectives, negation, and a variable leaf.
#[derive(Clone, Copy, Debug, PartialEq, Eq, PartialOrd, Structural)]
pub enum Type {
    And,
    Or,
    Implies,
    BiImplies,
    Not,
    Var,
}

impl Type {
    /// The least height of a formula that has a node of this kind at its
    /// root: one for a variable, two for an operator, which stands above at
    /// least one operand.
    pub open spec fn least_height(self) -> nat {
        if self == Type::Var {
            1
        } else {
            2
        }
    }

    /// The kind numbered `number`, counting the variants from zero in the
    /// order in which they are declared.
    pub open spec fn of_number(number: u8) -> Type {
        if number == 0 {
            Type::And
        } else if number == 1 {
            Type::Or
        } else if number == 2 {
            Type::Implies
        } else if number == 3 {
            Type::BiImplies
        } else if number == 4 {
            Type::Not
        } else {
            Type::Var
        }
    }

    /// Turns a number below six into the kind it stands for.
    pub fn from_u8(number: u8) -> (kind: Type)
        requires
            number < 6,
        ensures
            kind == Type::of_number(number),
    {
        match number {
            0 => Type::And,
            1 => Type::Or,
            2 => Type::Implies,
            3 => Type::BiImplies,
            4 => Type::Not,
            _ => Type::Var,
        }
    }
}

/// One syntactic unit of a formula.
///
/// `Bool` never occurs in a formula proper: it is what a variable becomes once
/// an assignment has been substituted, just before the formula is reduced.
#[derive(Clone, Copy, Debug, PartialEq, Eq, PartialOrd, Structural)]
pub enum Token {
    And,
    Or,
    Impls,
    BiImpls,
    Not,
    Var(u32),
    Bool(bool),
}

/// The error of asking a token that is no variable for its variable index.
#[derive(Clone, Copy, Debug, PartialEq, Eq, Structural)]
pub struct TokenError;

impl TokenError {
    /// The text of the message.
    pub open spec fn message() -> Seq<char> {
        "token is not a variable (display)"@
    }

    /// The message of the error.
    pub fn to_string(&self) -> (message: String)
        ensures
            message@ == TokenError::message(),
    {
        String::from_str("token is not a variable (display)")
    }
}

/// The character of the decimal digit `d`.
pub open spec fn digit(d: nat) -> char {
    if d == 0 {
        '0'
    } else if d == 1 {
        '1'
    } else if d == 2 {
        '2'
    } else if d == 3 {
        '3'
    } else if d == 4 {
        '4'
    } else if d == 5 {
        '5'
    } else if d == 6 {
        '6'
    } else if d == 7 {
        '7'
    } else if d == 8 {
        '8'
    } else {
        '9'
    }
}

/// The decimal numeral of `n`, without leading zeros.
pub open spec fn decimal(n: nat) -> Seq<char>
    decreases n,
{
    if n < 10 {
        seq![digit(n)]
    } else {
        decimal(n / 10).push(digit(n % 10))
    }
}

/// The text of the decimal digit `d`.
fn digit_text(d: u32) -> (text: &'static str)
    requires
        d < 10,
    ensures
        text@ == seq![digit(d as nat)],
{
    proof {
        reveal_strlit("0");
        reveal_strlit("1");
        reveal_strlit("2");
        reveal_strlit("3");
        reveal_strlit("4");
        reveal_strlit("5");
        reveal_strlit("6");
        reveal_strlit("7");
        reveal_strlit("8");
        reveal_strlit("9");
    }
    let text = match d {
        0 => "0",
        1 => "1",
        2 => "2",
        3 => "3",
        4 => "4",
        5 => "5",
        6 => "6",
        7 => "7",
        8 => "8",
        _ => "9",
    };
    assert(text@ =~= seq![digit(d as nat)]);
    text
}

/// The decimal numeral of `n`.
pub fn decimal_text(n: u32) -> (text: String)
    ensures
        text@ == decimal(n as nat),
    decreases n,
{
    if n < 10 {
        String::from_str(digit_text(n))
    } else {
        let mut text = decimal_text(n / 10);
        text.append(digit_text(n % 10));
        assert(text@ =~= decimal(n as nat));
        text
    }
}

impl Token {
    /// Whether the token is one of the five operators.
    pub open spec fn is_operator(self) -> bool {
        self is And || self is Or || self is Impls || self is BiImpls || self is Not
    }

    /// How many operands the token takes from the stack: two for a binary
    /// connective, one for negation, none for a leaf.
    pub open spec fn arity(self) -> nat {
        match self {
            Token::And | Token::Or | Token::Impls | Token::BiImpls => 2,
            Token::Not => 1,
            Token::Var(_) | Token::Bool(_) => 0,
        }
    }

    /// The token that a node of the given kind puts into a formula; a variable
    /// leaf made this way refers to variable zero.
    pub open spec fn of_kind(kind: Type) -> Token {
        match kind {
            Type::And => Token::And,
            Type::Or => Token::Or,
            Type::Implies => Token::Impls,
            Type::BiImplies => Token::BiImpls,
            Type::Not => Token::Not,
            Type::Var => Token::Var(0),
        }
    }

    /// How the token is written: `^`, `v`, `=>`, `<=>` and `!` for the
    /// operators; `P`, `Q`, `R`, `S`, `T` for the first five variables and `A`
    /// followed by the index for the others; `true` or `false` for a truth
    /// value.
    pub open spec fn symbol(self) -> Seq<char> {
        match self {
            Token::And => seq!['^'],
            Token::Or => seq!['v'],
            Token::Impls => seq!['=', '>'],
            Token::BiImpls => seq!['<', '=', '>'],
            Token::Not => seq!['!'],
            Token::Var(index) => if index == 0 {
                seq!['P']
            } else if index == 1 {
                seq!['Q']
            } else if index == 2 {
                seq!['R']
            } else if index == 3 {
                seq!['S']
            } else if index == 4 {
                seq!['T']
            } else {
                seq!['A'] + decimal(index as nat)
            },
            Token::Bool(value) => if value {
                seq!['t', 'r', 'u', 'e']
            } else {
                seq!['f', 'a', 'l', 's', 'e']
            },
        }
    }

    /// A reference to the variable with index `var`.
    pub fn new_var(var: u32) -> (token: Token)
        ensures
            token == Token::Var(var),
    {
        Token::Var(var)
    }

    /// The token of the given kind.
    pub fn new_oper(token_type: Type) -> (token: Token)
        ensures
            token == Token::of_kind(token_type),
    {
        match token_type {
            Type::And => Token::And,
            Type::Or => Token::Or,
            Type::Implies => Token::Impls,
            Type::BiImplies => Token::BiImpls,
            Type::Not => Token::Not,
            Type::Var => Token::Var(0),
        }
    }

    /// Whether the token is an operator: true for the four connectives and for
    /// negation, false for a variable and for a truth value.
    pub fn is_opr(&self) -> (b: bool)
        ensures
            b == self.is_operator(),
    {
        match *self {
            Token::And | Token::Or | Token::Impls | Token::BiImpls | Token::Not => true,
            Token::Var(_) | Token::Bool(_) => false,
        }
    }

    /// Whether the token is a variable reference.
    pub fn is_var(&self) -> (b: bool)
        ensures
            b == (*self is Var),
    {
        match *self {
            Token::Var(_) => true,
            _ => false,
        }
    }

    /// The index of the variable the token refers to, or the error if the
    /// token is anything else.
    pub fn get_var_index(&self) -> (res: Result<u32, TokenError>)
        ensures
            res == (match *self {
                Token::Var(index) => Ok::<u32, TokenError>(index),
                _ => Err::<u32, TokenError>(TokenError),
            }),
    {
        match *self {
            Token::Var(index) => Ok(index),
            _ => Err(TokenError),
        }
    }

    /// How the token is written.
    pub fn get_symbol(&self) -> (symbol: String)
        ensures
            symbol@ == self.symbol(),
    {
        proof {
            reveal_strlit("^");
            reveal_strlit("v");
            reveal_strlit("=>");
            reveal_strlit("<=>");
            reveal_strlit("!");
            reveal_strlit("P");
            reveal_strlit("Q");
            reveal_strlit("R");
            reveal_strlit("S");
            reveal_strlit("T");
            reveal_strlit("A");
            reveal_strlit("true");
            reveal_strlit("false");
        }
        let symbol = match *self {
            Token::And => String::from_str("^"),
            Token::Or => String::from_str("v"),
            Token::Impls => String::from_str("=>"),
            Token::BiImpls => String::from_str("<=>"),
            Token::Not => String::from_str("!"),
            Token::Var(index) => match index {
                0 => String::from_str("P"),
                1 => String::from_str("Q"),
                2 => String::from_str("R"),
                3 => String::from_str("S"),
                4 => String::from_str("T"),
                index => {
                    let mut symbol = String::from_str("A");
                    let number = decimal_text(index);
                    symbol.append(number.as_str());
                    symbol
                },
            },
            Token::Bool(value) => if value {
                String::from_str("true")
            } else {
                String::from_str("false")
            },
        };
        assert(symbol@ =~= self.symbol());
        symbol
    }

    /// Whether the token is an operator; the same as [`Token::is_opr`].
    pub fn is_oper(&self) -> (b: bool)
        ensures
            b == self.is_operator(),
    {
        self.is_opr()
    }

    /// The index of the variable the token refers to, or the error if the
    /// token is anything else; the same as [`Token::get_var_index`].
    pub fn get_variable(&self) -> (res: Result<u32, TokenError>)
        ensures
            res == (match *self {
                Token::Var(index) => Ok::<u32, TokenError>(index),
                _ => Err::<u32, TokenError>(TokenError),
            }),
    {
        self.get_var_index()
    }
}

} // verus!
