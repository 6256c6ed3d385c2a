//! The indexer's configuration, from the values of its environment
//! variables.

use vstd::prelude::*;

use vstd::string::StringSliceAdditionalSpecFns;

verus! {

/// The indexer's configuration.
#[derive(Clone, Debug, PartialEq, Eq)]
pub struct Config {
    /// The Soroban RPC endpoint (e.g. `https://soroban-testnet.stellar.org`).
    pub rpc_url: String,
    /// The deployed registry's contract id (a `C...` strkey).
    pub contract_id: String,
    /// The HTTP port.
    pub port: u16,
}

/// The decimal value of a sequence of ASCII digits.
pub open spec fn decimal_value(d: Seq<u8>) -> int
    decreases d.len(),
{
    if d.len() == 0 {
        0
    } else {
        10 * decimal_value(d.drop_last()) + (d.last() - 48)
    }
}

/// Whether every byte is an ASCII digit.
pub open spec fn all_digits(d: Seq<u8>) -> bool {
    forall|i: int| 0 <= i < d.len() ==> 48 <= #[trigger] d[i] <= 57
}

/// How `u16::from_str` reads the UTF-8 bytes `b`: an optional `+` sign
/// followed by one or more decimal digits, of value at most 65535.
pub open spec fn parse_u16_result(b: Seq<u8>) -> Option<u16> {
    let d = if b.len() > 0 && b[0] == 43 {
        b.drop_first()
    } else {
        b
    };
    if d.len() > 0 && all_digits(d) && decimal_value(d) <= 65535 {
        Some(decimal_value(d) as u16)
    } else {
        None
    }
}

proof fn lemma_decimal_value_grows(d: Seq<u8>, n: int)
    requires
        all_digits(d),
        0 <= n <= d.len(),
    ensures
        decimal_value(d.take(n)) <= decimal_value(d),
        0 <= decimal_value(d.take(n)),
    decreases d.len() - n,
{
    if n < d.len() {
        assert(d.take(n + 1).drop_last() =~= d.take(n));
        lemma_decimal_value_grows(d, n + 1);
    } else {
        assert(d.take(n) =~= d);
    }
    lemma_decimal_value_nonneg(d.take(n));
}

proof fn lemma_decimal_value_nonneg(d: Seq<u8>)
    requires
        all_digits(d),
    ensures
        0 <= decimal_value(d),
    decreases d.len(),
{
    if d.len() > 0 {
        lemma_decimal_value_nonneg(d.drop_last());
    }
}

/// Reads a port number as `u16::from_str` does.
pub fn parse_u16(s: &str) -> (r: Option<u16>)
    ensures
        r == parse_u16_result(s.spec_bytes()),
{
    let b = s.as_bytes();
    let start: usize = if b.len() > 0 && b[0] == 43 {
        1
    } else {
        0
    };
    let ghost d = b@.subrange(start as int, b@.len() as int);
    assert(d =~= (if b@.len() > 0 && b@[0] == 43 {
        b@.drop_first()
    } else {
        b@
    }));
    if b.len() == start {
        assert(d.len() == 0);
        return None;
    }
    let mut value: u32 = 0;
    let mut i: usize = start;
    assert(d.take(0) =~= Seq::<u8>::empty());
    while i < b.len()
        invariant
            start <= i <= b@.len(),
            d == b@.subrange(start as int, b@.len() as int),
            d.len() > 0,
            d == (if b@.len() > 0 && b@[0] == 43 {
                b@.drop_first()
            } else {
                b@
            }),
            b@ == s.spec_bytes(),
            all_digits(d.take(i - start)),
            value == decimal_value(d.take(i - start)),
            value <= 65535,
        decreases b@.len() - i,
    {
        let c = b[i];
        let ghost k: int = i - start;
        assert(d.take(k + 1).drop_last() =~= d.take(k));
        assert(d.take(k + 1).last() == c);
        if c < 48 || c > 57 {
            assert(d[k] == c);
            assert(!all_digits(d));
            return None;
        }
        let digit = (c - 48) as u32;
        assert(value * 10 + digit <= 655359) by (nonlinear_arith)
            requires
                value <= 65535,
                digit <= 9,
        ;
        value = value * 10 + digit;
        assert(all_digits(d.take(k + 1))) by {
            assert forall|j: int| 0 <= j < k + 1 implies 48 <= #[trigger] d.take(k + 1)[j] <= 57 by {
                if j < k {
                    assert(d.take(k + 1)[j] == d.take(k)[j]);
                }
            }
        }
        if value > 65535 {
            proof {
                if all_digits(d) {
                    lemma_decimal_value_grows(d, k + 1);
                }
            }
            return None;
        }
        i = i + 1;
    }
    assert(d.take(b@.len() - start) =~= d);
    Some(value as u16)
}

impl Config {
    /// The configuration from the values of `SOROBAN_RPC_URL`,
    /// `CONTRACT_ID` and `PORT` (`None` when unset): the RPC URL defaults to
    /// the public testnet, the contract id is required, and a port that does
    /// not read as a `u16` falls back to 4000.
    pub fn from_values(rpc_url: Option<String>, contract_id: Option<String>, port: Option<String>) -> (r: Result<
        Config,
        String,
    >)
        ensures
            match contract_id {
                None => r matches Err(m) && m@ == "CONTRACT_ID is required (deployed C... strkey)"@,
                Some(c) => r matches Ok(cfg) && {
                    &&& cfg.contract_id == c
                    &&& cfg.rpc_url@ == (match rpc_url {
                        Some(u) => u@,
                        None => "https://soroban-testnet.stellar.org"@,
                    })
                    &&& cfg.port == (match port {
                        Some(p) => match parse_u16_result(vstd::utf8::encode_utf8(p@)) {
                            Some(n) => n,
                            None => 4000u16,
                        },
                        None => 4000u16,
                    })
                },
            },
    {
        let rpc_url = match rpc_url {
            Some(u) => u,
            None => "https://soroban-testnet.stellar.org".to_owned(),
        };
        let contract_id = match contract_id {
            Some(c) => c,
            None => {
                return Err("CONTRACT_ID is required (deployed C... strkey)".to_owned());
            },
        };
        let port = match port {
            Some(p) => match parse_u16(p.as_str()) {
                Some(n) => n,
                None => 4000,
            },
            None => 4000,
        };
        Ok(Config { rpc_url, contract_id, port })
    }
}

} // verus!
