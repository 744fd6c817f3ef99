//! Tradable-instrument identifiers, classified once as equity or crypto.
use vstd::prelude::*;
use crate::text::{
    filter_alpha, retain_alphabetic, seq_char_lt, spec_contains, str_contains, str_eq, str_lt,
};

verus! {

/// The tickers treated as naming cryptocurrencies.
pub open spec fn known_cryptos() -> Seq<Seq<char>> {
    seq![
        "BTC"@,
        "ETH"@,
        "PAXG"@,
        "BCH"@,
        "AAVE"@,
        "LTC"@,
        "LINK"@,
        "UNI"@,
        "SHIB"@,
        "USDT"@,
    ]
}

fn crypto_fragments() -> (v: Vec<&'static str>)
    ensures
        v@.len() == known_cryptos().len(),
        forall|j: int| 0 <= j < v@.len() ==> (#[trigger] v@[j])@ == known_cryptos()[j],
{
    let v: Vec<&'static str> = vec![
        "BTC", "ETH", "PAXG", "BCH", "AAVE", "LTC", "LINK", "UNI", "SHIB", "USDT",
    ];
    v
}

/// A normalized ticker is a crypto ticker when one of the known crypto
/// tickers occurs inside it.
pub open spec fn spec_is_crypto_ticker(t: Seq<char>) -> bool {
    exists|k: int| 0 <= k < known_cryptos().len() && spec_contains(t, known_cryptos()[k])
}

pub fn is_crypto_ticker(t: &str) -> (r: bool)
    ensures
        r == spec_is_crypto_ticker(t@),
{
    let frags = crypto_fragments();
    let mut k: usize = 0;
    while k < frags.len()
        invariant
            frags@.len() == known_cryptos().len(),
            forall|j: int| 0 <= j < frags@.len() ==> (#[trigger] frags@[j])@ == known_cryptos()[j],
            k <= frags@.len(),
            forall|j: int| 0 <= j < k ==> !spec_contains(t@, known_cryptos()[j]),
        decreases frags@.len() - k,
    {
        if str_contains(t, frags[k]) {
            proof {
                assert(spec_contains(t@, known_cryptos()[k as int]));
            }
            return true;
        }
        k = k + 1;
    }
    false
}

/// An instrument identifier. The ticker is normalized (alphabetic characters
/// only) and the variant records whether the ticker names a known
/// cryptocurrency; the classification never changes after construction.
#[derive(Debug)]
pub enum Symbol {
    Stock { ticker: String },
    Crypto { ticker: String },
}

impl View for Symbol {
    type V = (bool, Seq<char>);

    open spec fn view(&self) -> (bool, Seq<char>) {
        (self.spec_is_crypto(), self.spec_ticker())
    }
}

impl Symbol {
    pub open spec fn spec_ticker(self) -> Seq<char> {
        match self {
            Symbol::Stock { ticker } => ticker@,
            Symbol::Crypto { ticker } => ticker@,
        }
    }

    pub open spec fn spec_is_crypto(self) -> bool {
        self is Crypto
    }

    /// The classification a raw ticker string receives: its alphabetic
    /// characters are kept, and the result is a crypto symbol exactly when a
    /// known crypto ticker occurs inside it.
    pub open spec fn spec_classified(raw: Seq<char>) -> (bool, Seq<char>) {
        (spec_is_crypto_ticker(filter_alpha(raw)), filter_alpha(raw))
    }

    /// Build a symbol from a raw ticker string: drop every non-alphabetic
    /// character, then classify by membership of a known crypto ticker.
    pub fn from(raw: &str) -> (s: Symbol)
        ensures
            s@ == Symbol::spec_classified(raw@),
    {
        let ticker = retain_alphabetic(raw);
        if is_crypto_ticker(ticker.as_str()) {
            Symbol::Crypto { ticker }
        } else {
            Symbol::Stock { ticker }
        }
    }

    pub fn ticker(&self) -> (t: &str)
        ensures
            t@ == self.spec_ticker(),
    {
        match self {
            Symbol::Stock { ticker } => ticker.as_str(),
            Symbol::Crypto { ticker } => ticker.as_str(),
        }
    }

    pub fn is_crypto(&self) -> (r: bool)
        ensures
            r == self.spec_is_crypto(),
    {
        match self {
            Symbol::Stock { .. } => false,
            Symbol::Crypto { .. } => true,
        }
    }

    /// Strict canonical order: tickers lexicographically by character code
    /// point, regardless of classification (downstream price responses are
    /// keyed alphabetically by ticker).
    pub open spec fn spec_lt(self, other: Symbol) -> bool {
        seq_char_lt(self.spec_ticker(), other.spec_ticker())
    }

    /// Canonical order: strictly before, or carrying the same ticker.
    pub open spec fn spec_le(self, other: Symbol) -> bool {
        self.spec_lt(other) || self.spec_ticker() == other.spec_ticker()
    }

    pub fn le(&self, other: &Symbol) -> (r: bool)
        ensures
            r == self.spec_le(*other),
    {
        str_lt(self.ticker(), other.ticker()) || str_eq(self.ticker(), other.ticker())
    }
}

/// The canonical symbol order is total.
pub proof fn lemma_symbol_le_total(a: Symbol, b: Symbol)
    ensures
        a.spec_le(b) || b.spec_le(a),
{
    crate::text::lemma_seq_char_lt_trichotomy(a.spec_ticker(), b.spec_ticker());
}

/// The canonical symbol order is transitive.
pub proof fn lemma_symbol_le_trans(a: Symbol, b: Symbol, c: Symbol)
    requires
        a.spec_le(b),
        b.spec_le(c),
    ensures
        a.spec_le(c),
{
    if a.spec_lt(b) && b.spec_lt(c) {
        crate::text::lemma_seq_char_lt_trans(a.spec_ticker(), b.spec_ticker(), c.spec_ticker());
    }
}

impl Clone for Symbol {
    fn clone(&self) -> (r: Self)
        ensures
            r == *self,
    {
        match self {
            Symbol::Stock { ticker } => Symbol::Stock { ticker: ticker.clone() },
            Symbol::Crypto { ticker } => Symbol::Crypto { ticker: ticker.clone() },
        }
    }
}

impl PartialEq for Symbol {
    fn eq(&self, other: &Self) -> (r: bool) {
        match (self, other) {
            (Symbol::Stock { ticker: a }, Symbol::Stock { ticker: b }) => str_eq(
                a.as_str(),
                b.as_str(),
            ),
            (Symbol::Crypto { ticker: a }, Symbol::Crypto { ticker: b }) => str_eq(
                a.as_str(),
                b.as_str(),
            ),
            _ => false,
        }
    }
}

impl vstd::std_specs::cmp::PartialEqSpecImpl for Symbol {
    open spec fn obeys_eq_spec() -> bool {
        true
    }

    open spec fn eq_spec(&self, other: &Self) -> bool {
        self@ == other@
    }
}

} // verus!
