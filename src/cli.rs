//! The commands of the command line, read from its arguments.
use crate::error::Error;
use vstd::prelude::*;
use vstd::string::StrSliceExecFns;

verus! {

/// A command with its arguments.
#[derive(Debug, Clone, PartialEq, Eq)]
pub enum Command {
    CreateBlockchain { address: String },
    SendCoin { from: String, to: String, amount: u64, mine_now: bool },
    GetBalance { address: String },
    PrintBlockchain,
    CreateWallet,
    ListAddresses,
    ReindexUTXO,
    StartNode { miner_address: String },
}

/// The arguments after the program's name.
pub struct CommandLine {
    pub args: Vec<String>,
}

/// The value of a text of decimal digits; `None` for an empty text, a
/// character that is no digit, or a value beyond 64 bits.
pub open spec fn decimal_value(s: Seq<char>) -> Option<u64>
    decreases s.len(),
{
    if s.len() == 0 {
        None
    } else if s.len() == 1 {
        if '0' <= s[0] <= '9' {
            Some((s[0] as u32 - '0' as u32) as u64)
        } else {
            None
        }
    } else {
        match decimal_value(s.drop_last()) {
            None => None,
            Some(v) => if '0' <= s.last() <= '9' && v as int * 10 + (s.last() as u32 - '0' as u32) <= u64::MAX {
                Some((v as int * 10 + (s.last() as u32 - '0' as u32)) as u64)
            } else {
                None
            },
        }
    }
}

/// `true` and `false`, and nothing else.
pub open spec fn boolean_value(s: Seq<char>) -> Option<bool> {
    if s == "true"@ {
        Some(true)
    } else if s == "false"@ {
        Some(false)
    } else {
        None
    }
}

/// The arguments that a command stands for.
pub open spec fn command_fits(args: Seq<Seq<char>>, c: Command) -> bool {
    match c {
        Command::CreateBlockchain { address } => args.len() >= 2 && args[0] == "create_blockchain"@ && address@ == args[1],
        Command::SendCoin { from, to, amount, mine_now } => args.len() >= 5 && args[0] == "send_coin"@ && from@ == args[1]
            && to@ == args[2] && decimal_value(args[3]) == Some(amount) && boolean_value(args[4]) == Some(mine_now),
        Command::GetBalance { address } => args.len() >= 2 && args[0] == "get_balance"@ && address@ == args[1],
        Command::PrintBlockchain => args.len() >= 1 && args[0] == "print_blockchain"@,
        Command::CreateWallet => args.len() >= 1 && args[0] == "create_wallet"@,
        Command::ListAddresses => args.len() >= 1 && args[0] == "list_addresses"@,
        Command::ReindexUTXO => args.len() >= 1 && args[0] == "reindex_utxo"@,
        Command::StartNode { miner_address } => args.len() >= 2 && args[0] == "start_node"@ && miner_address@ == args[1],
    }
}

/// The texts of a list of strings.
pub open spec fn args_model(s: Seq<String>) -> Seq<Seq<char>> {
    s.map_values(|a: String| a@)
}

proof fn lemma_decimal_prefix(s: Seq<char>, n: int)
    requires
        1 <= n <= s.len(),
        decimal_value(s.subrange(0, n)) is None,
    ensures
        decimal_value(s) is None,
    decreases s.len(),
{
    if n < s.len() {
        assert(s.drop_last().subrange(0, n) =~= s.subrange(0, n));
        lemma_decimal_prefix(s.drop_last(), n);
    } else {
        assert(s.subrange(0, n) =~= s);
    }
}

/// The value of a decimal text.
pub fn parse_decimal(s: &str) -> (r: Option<u64>)
    ensures
        r == decimal_value(s@),
{
    let n = s.unicode_len();
    if n == 0 {
        return None;
    }
    let mut value: u64 = 0;
    let mut i: usize = 0;
    while i < n
        invariant
            n == s@.len(),
            n >= 1,
            i <= n,
            i >= 1 ==> decimal_value(s@.subrange(0, i as int)) == Some(value),
            i == 0 ==> value == 0,
        decreases n - i,
    {
        let c = s.get_char(i);
        let ghost pre = s@.subrange(0, i + 1);
        assert(pre.drop_last() =~= s@.subrange(0, i as int));
        assert(pre.last() == c);
        if !('0' <= c && c <= '9') {
            proof {
                lemma_decimal_prefix(s@, i + 1);
            }
            return None;
        }
        let d = (c as u32 - '0' as u32) as u64;
        if value > (u64::MAX - d) / 10 {
            assert(value as int * 10 + d > u64::MAX) by (nonlinear_arith)
                requires
                    value > (u64::MAX - d) / 10,
                    d <= 9,
            ;
            proof {
                lemma_decimal_prefix(s@, i + 1);
            }
            return None;
        }
        assert(value as int * 10 + d <= u64::MAX) by (nonlinear_arith)
            requires
                value <= (u64::MAX - d) / 10,
                d <= 9,
        ;
        value = value * 10 + d;
        i = i + 1;
    }
    assert(s@.subrange(0, n as int) =~= s@);
    Some(value)
}

/// Reads `true` or `false`.
pub fn parse_boolean(s: &str) -> (r: Option<bool>)
    ensures
        r == boolean_value(s@),
{
    let t = "true".to_owned();
    let f = "false".to_owned();
    let v = s.to_owned();
    if v == t {
        Some(true)
    } else if v == f {
        Some(false)
    } else {
        None
    }
}

fn word_is(a: &String, w: &str) -> (r: bool)
    ensures
        r == (a@ == w@),
{
    *a == w.to_owned()
}

impl CommandLine {
    /// The command that the arguments name: `Error::Usage` where they name
    /// none or too few arguments follow, `Error::InvalidAmount` where the
    /// amount is no decimal integer, `Error::InvalidFlag` where MINE_NOW is
    /// neither `true` nor `false`.
    pub fn parse(&self) -> (r: Result<Command, Error>)
        ensures
            r matches Ok(c) ==> command_fits(args_model(self.args@), c),
            r is Err ==> r == Err::<Command, Error>(Error::Usage) || r == Err::<Command, Error>(Error::InvalidAmount)
                || r == Err::<Command, Error>(Error::InvalidFlag),
            r == Err::<Command, Error>(Error::InvalidAmount) <==> self.args@.len() >= 5 && self.args@[0]@ == "send_coin"@
                && decimal_value(self.args@[3]@) is None,
            (exists|c: Command| command_fits(args_model(self.args@), c)) ==> r is Ok,
            r == Err::<Command, Error>(Error::InvalidFlag) ==> self.args@.len() >= 5 && self.args@[0]@ == "send_coin"@
                && boolean_value(self.args@[4]@) is None,
    {
        let args = &self.args;
        let n = args.len();
        if n == 0 {
            return Err(Error::Usage);
        }
        let ghost m = args_model(args@);
        assert(m[0] == args@[0]@);
        proof {
            reveal_strlit("create_blockchain");
            reveal_strlit("send_coin");
            reveal_strlit("get_balance");
            reveal_strlit("print_blockchain");
            reveal_strlit("create_wallet");
            reveal_strlit("list_addresses");
            reveal_strlit("reindex_utxo");
            reveal_strlit("start_node");
        }
        let w = &args[0];
        if word_is(w, "create_blockchain") && n >= 2 {
            assert(m[1] == args@[1]@);
            return Ok(Command::CreateBlockchain { address: args[1].clone() });
        }
        if word_is(w, "send_coin") && n >= 5 {
            let amount = match parse_decimal(args[3].as_str()) {
                Some(a) => a,
                None => return Err(Error::InvalidAmount),
            };
            let mine_now = match parse_boolean(args[4].as_str()) {
                Some(b) => b,
                None => return Err(Error::InvalidFlag),
            };
            assert(m[1] == args@[1]@ && m[2] == args@[2]@ && m[3] == args@[3]@ && m[4] == args@[4]@);
            return Ok(Command::SendCoin { from: args[1].clone(), to: args[2].clone(), amount, mine_now });
        }
        if word_is(w, "get_balance") && n >= 2 {
            assert(m[1] == args@[1]@);
            return Ok(Command::GetBalance { address: args[1].clone() });
        }
        if word_is(w, "print_blockchain") {
            return Ok(Command::PrintBlockchain);
        }
        if word_is(w, "create_wallet") {
            return Ok(Command::CreateWallet);
        }
        if word_is(w, "list_addresses") {
            return Ok(Command::ListAddresses);
        }
        if word_is(w, "reindex_utxo") {
            return Ok(Command::ReindexUTXO);
        }
        if word_is(w, "start_node") && n >= 2 {
            assert(m[1] == args@[1]@);
            return Ok(Command::StartNode { miner_address: args[1].clone() });
        }
        Err(Error::Usage)
    }
}

} // verus!
