//! Chat commands: the tokens of a typed line and the commands they spell.
use vstd::prelude::*;
use scanlex::{Scanner, Token};
use crate::item::ItemLike;
use crate::player::{PlayerInventory, empty_slots, given, slot_grew, slots_fit, slots_total};

verus! {

/// A token of a typed line, as the lexer reads it: a number with a
/// fractional part, an integer, a quoted string, an identifier, any other
/// character, or a malformed number.
#[derive(Debug)]
pub enum ScanToken {
    Num,
    Int(i64),
    Str(String),
    Iden(String),
    Char(char),
    Error,
}

/// A token with its text as a sequence of characters.
pub ghost enum TokenView {
    Num,
    Int(i64),
    Str(Seq<char>),
    Iden(Seq<char>),
    Char(char),
    Error,
}

impl View for ScanToken {
    type V = TokenView;

    open spec fn view(&self) -> TokenView {
        match self {
            ScanToken::Num => TokenView::Num,
            ScanToken::Int(n) => TokenView::Int(*n),
            ScanToken::Str(s) => TokenView::Str(s@),
            ScanToken::Iden(s) => TokenView::Iden(s@),
            ScanToken::Char(c) => TokenView::Char(*c),
            ScanToken::Error => TokenView::Error,
        }
    }
}

/// The tokens that the lexer reads from a line, up to its end.
pub uninterp spec fn scanned_tokens(text: Seq<char>) -> Seq<TokenView>;

/// Splits a line into tokens.
///
/// Trusted: `scanlex::Scanner`, run over the line until it reports the
/// end, yields the same tokens for the same line; each is converted
/// variant by variant, dropping the value of a fractional number and the
/// message of an error. Which tokens a line gives is not stated beyond
/// naming them.
#[verifier::external_body]
fn scan_tokens(text: &str) -> (r: Vec<ScanToken>)
    ensures
        r@.map_values(|t: ScanToken| t@) == scanned_tokens(text@),
{
    let mut r = Vec::new();
    for t in Scanner::new(text) {
        r.push(match t {
            Token::Num(_) => ScanToken::Num,
            Token::Int(n) => ScanToken::Int(n),
            Token::Str(s) => ScanToken::Str(s),
            Token::Iden(s) => ScanToken::Iden(s),
            Token::Char(c) => ScanToken::Char(c),
            Token::Error(_) | Token::End => ScanToken::Error,
        });
    }
    r
}

/// A chat command.
#[derive(Debug)]
pub enum Cmd {
    Give { id: String, count: usize },
    Summon { id: String },
}

/// A command with its text as sequences of characters.
pub ghost enum CmdView {
    Give { id: Seq<char>, count: usize },
    Summon { id: Seq<char> },
}

impl View for Cmd {
    type V = CmdView;

    open spec fn view(&self) -> CmdView {
        match self {
            Cmd::Give { id, count } => CmdView::Give { id: id@, count: *count },
            Cmd::Summon { id } => CmdView::Summon { id: id@ },
        }
    }
}

/// A line that is not a command.
#[derive(Debug)]
pub struct PErr;

/// The `i`-th token; past the last one the lexer reports the end.
pub open spec fn token_at(ts: Seq<TokenView>, i: int) -> Option<TokenView> {
    if 0 <= i < ts.len() {
        Some(ts[i])
    } else {
        None
    }
}

/// The command that a token sequence spells: `give <identifier>
/// [<integer>]`, the count 1 when no integer follows and refused when
/// negative, or `summon <identifier>`.
pub open spec fn parse_spec(ts: Seq<TokenView>) -> Option<CmdView> {
    match token_at(ts, 0) {
        Some(TokenView::Iden(c)) => if c == "give"@ {
            match token_at(ts, 1) {
                Some(TokenView::Iden(id)) => {
                    let count: i64 = match token_at(ts, 2) {
                        Some(TokenView::Int(n)) => n,
                        _ => 1,
                    };
                    if count < 0 {
                        None
                    } else {
                        Some(CmdView::Give { id, count: count as usize })
                    }
                },
                _ => None,
            }
        } else if c == "summon"@ {
            match token_at(ts, 1) {
                Some(TokenView::Iden(id)) => Some(CmdView::Summon { id }),
                _ => None,
            }
        } else {
            None
        },
        _ => None,
    }
}

/// A line `give <identifier> [<integer>] ...` gives a `give` of the item
/// that the identifier names, with the integer as its count exactly (any
/// size that a count holds), 1 when no integer follows it, and is
/// refused when the integer is negative; a line `summon <identifier> ...`
/// gives a `summon` of that identifier. Whatever follows those tokens is
/// ignored.
pub proof fn lemma_parse_commands(ts: Seq<TokenView>)
    ensures
        ts.len() >= 3 && ts[0] == TokenView::Iden("give"@) && ts[1] is Iden && ts[2] is Int ==> ({
            let n = ts[2]->Int_0;
            &&& 0 <= n <= usize::MAX ==> parse_spec(ts) == Some(CmdView::Give { id: ts[1]->Iden_0, count: n as usize })
            &&& 0 <= n <= usize::MAX ==> parse_spec(ts)->Some_0->count == n
            &&& n < 0 ==> parse_spec(ts) is None
        }),
        ts.len() >= 2 && ts[0] == TokenView::Iden("give"@) && ts[1] is Iden && (ts.len() == 2 || !(ts[2] is Int))
            ==> parse_spec(ts) == Some(CmdView::Give { id: ts[1]->Iden_0, count: 1 }),
        ts.len() >= 2 && ts[0] == TokenView::Iden("summon"@) && ts[1] is Iden ==> parse_spec(ts) == Some(
            CmdView::Summon { id: ts[1]->Iden_0 },
        ),
        ts.len() == 0 || !(ts[0] is Iden) ==> parse_spec(ts) is None,
        ts.len() >= 1 && ts[0] is Iden && ts[0]->Iden_0 != "give"@ && ts[0]->Iden_0 != "summon"@ ==> parse_spec(
            ts,
        ) is None,
        ts.len() >= 1 && (ts[0] == TokenView::Iden("give"@) || ts[0] == TokenView::Iden("summon"@)) && (ts.len()
            == 1 || !(ts[1] is Iden)) ==> parse_spec(ts) is None,
{
    reveal_strlit("give");
    reveal_strlit("summon");
    assert("give"@.len() == 4 && "summon"@.len() == 6);
    assert("give"@ != "summon"@);
}

/// Reads a command from the tokens of a line.
pub fn parse_tokens(ts: &[ScanToken]) -> (r: Result<Cmd, PErr>)
    ensures
        match (r, parse_spec(ts@.map_values(|t: ScanToken| t@))) {
            (Ok(c), Some(v)) => c@ == v,
            (Err(_), None) => true,
            _ => false,
        },
{
    let ghost tv = ts@.map_values(|t: ScanToken| t@);
    if ts.len() == 0 {
        return Err(PErr);
    }
    let cmd = match &ts[0] {
        ScanToken::Iden(c) => c,
        _ => {
            return Err(PErr);
        },
    };
    let give = "give".to_owned();
    let summon = "summon".to_owned();
    if *cmd == give {
        let id = if ts.len() > 1 {
            match &ts[1] {
                ScanToken::Iden(s) => s.clone(),
                _ => {
                    return Err(PErr);
                },
            }
        } else {
            return Err(PErr);
        };
        let count: i64 = if ts.len() > 2 {
            match &ts[2] {
                ScanToken::Int(n) => *n,
                _ => 1,
            }
        } else {
            1
        };
        if count < 0 {
            return Err(PErr);
        }
        let count = count as usize;
        Ok(Cmd::Give { id, count })
    } else if *cmd == summon {
        let id = if ts.len() > 1 {
            match &ts[1] {
                ScanToken::Iden(s) => s.clone(),
                _ => {
                    return Err(PErr);
                },
            }
        } else {
            return Err(PErr);
        };
        Ok(Cmd::Summon { id })
    } else {
        Err(PErr)
    }
}

/// Reads a command from a typed line.
pub fn parse(s: &str) -> (r: Result<Cmd, PErr>)
    ensures
        match (r, parse_spec(scanned_tokens(s@))) {
            (Ok(c), Some(v)) => c@ == v,
            (Err(_), None) => true,
            _ => false,
        },
{
    let ts = scan_tokens(s);
    parse_tokens(ts.as_slice())
}

impl Cmd {
    /// Carries out a `give` on the player's inventory, `item` being the kind
    /// that its id names: the count is handed out in stacks of at most 64,
    /// each merged into the inventory, so that a slot that changes is an
    /// empty slot now holding `item`, or a stack that may stack with it. Returns how many items found no room,
    /// or `None`, changing nothing, for a command that is not a `give`.
    pub fn exec_give(&self, inv: &mut PlayerInventory, item: &ItemLike) -> (r: Option<usize>)
        requires
            slots_fit(old(inv).data@),
        ensures
            final(inv).data@.len() == old(inv).data@.len(),
            slots_fit(final(inv).data@),
            match self {
                Cmd::Give { count, .. } => {
                    &&& r is Some
                    &&& slots_total(final(inv).data@) + r.unwrap() == slots_total(old(inv).data@) + *count
                    &&& r.unwrap() <= *count
                    &&& r.unwrap() > 0 ==> forall|k: int|
                        0 <= k < final(inv).data@.len() ==> final(inv).data@[k] is Some
                    &&& *count <= 64 * empty_slots(old(inv).data@) ==> r.unwrap() == 0
                    &&& (final(inv).data@, r.unwrap() as int) == given(old(inv).data@, *item, *count as nat, 0)
                    &&& forall|k: int|
                        0 <= k < old(inv).data@.len() ==> slot_grew(
                            old(inv).data@[k],
                            #[trigger] final(inv).data@[k],
                            *item,
                        )
                },
                Cmd::Summon { .. } => r is None && final(inv).data@ == old(inv).data@,
            },
    {
        match self {
            Cmd::Give { count, .. } => Some(inv.give(item, *count)),
            Cmd::Summon { .. } => None,
        }
    }
}

impl std::str::FromStr for Cmd {
    type Err = ();

    fn from_str(s: &str) -> (r: Result<Self, ()>)
        ensures
            match (r, parse_spec(scanned_tokens(s@))) {
                (Ok(c), Some(v)) => c@ == v,
                (Err(_), None) => true,
                _ => false,
            },
    {
        match parse(s) {
            Ok(c) => Ok(c),
            Err(_) => Err(()),
        }
    }
}

} // verus!
