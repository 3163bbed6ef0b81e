//! The parsing pallet: reads staking tables that the indexers finalized and
//! turns their rows into staking requests.  Staking itself (balances, bonds,
//! nominations) is the runtime's work; the library says which requests a
//! table holds and which amounts each one moves.

use vstd::prelude::*;

use crate::types::{account_of, AccountId32};

verus! {

broadcast use vstd::string::axiom_spec_iter;

/// The characters of a string.
pub fn str_chars(s: &str) -> (r: Vec<char>)
    ensures
        r@ == s@,
{
    let mut out: Vec<char> = Vec::new();
    for c in iter: s.chars()
        invariant
            out@ == iter.history(),
    {
        out.push(c);
    }
    out
}

/// Whether `c` is white space, as `char::is_whitespace` defines it.
pub open spec fn is_whitespace(c: char) -> bool {
    let u = c as u32;
    (9 <= u <= 13) || u == 32 || u == 0x85 || u == 0xa0 || u == 0x1680 || (0x2000 <= u <= 0x200a)
        || u == 0x2028 || u == 0x2029 || u == 0x202f || u == 0x205f || u == 0x3000
}

fn char_is_whitespace(c: char) -> (r: bool)
    ensures
        r == is_whitespace(c),
{
    let u = c as u32;
    (9 <= u && u <= 13) || u == 32 || u == 0x85 || u == 0xa0 || u == 0x1680 || (0x2000 <= u && u
        <= 0x200a) || u == 0x2028 || u == 0x2029 || u == 0x202f || u == 0x205f || u == 0x3000
}

/// `s` without leading white space.
pub open spec fn trim_start(s: Seq<char>) -> Seq<char>
    decreases s.len(),
{
    if s.len() > 0 && is_whitespace(s[0]) {
        trim_start(s.drop_first())
    } else {
        s
    }
}

/// `s` without trailing white space.
pub open spec fn trim_end(s: Seq<char>) -> Seq<char>
    decreases s.len(),
{
    if s.len() > 0 && is_whitespace(s.last()) {
        trim_end(s.drop_last())
    } else {
        s
    }
}

/// `s` without leading or trailing white space, as `str::trim` gives it.
pub open spec fn trim(s: Seq<char>) -> Seq<char> {
    trim_end(trim_start(s))
}

/// `s` without every leading `"0x"`, as `trim_start_matches("0x")` gives it.
pub open spec fn strip_0x(s: Seq<char>) -> Seq<char>
    decreases s.len(),
{
    if s.len() >= 2 && s[0] == '0' && s[1] == 'x' {
        strip_0x(s.skip(2))
    } else {
        s
    }
}

/// The pieces of `s` between the commas, as `split(',')` gives them.
pub open spec fn split_commas(s: Seq<char>) -> Seq<Seq<char>>
    decreases s.len(),
{
    if s.len() == 0 {
        seq![Seq::<char>::empty()]
    } else {
        let prev = split_commas(s.drop_last());
        if s.last() == ',' {
            prev.push(Seq::<char>::empty())
        } else {
            prev.update(prev.len() - 1, prev.last().push(s.last()))
        }
    }
}

/// Whether `c` is a hexadecimal digit, in either case.
pub open spec fn is_hex_digit(c: u8) -> bool {
    (48 <= c <= 57) || (97 <= c <= 102) || (65 <= c <= 70)
}

/// The value of a hexadecimal digit.
pub open spec fn hex_val(c: u8) -> u8 {
    if 48 <= c <= 57 {
        (c - 48) as u8
    } else if 97 <= c <= 102 {
        (c - 97 + 10) as u8
    } else {
        (c - 65 + 10) as u8
    }
}

/// The 20 bytes that 40 hexadecimal digits stand for, two digits a byte,
/// the high nibble first; `None` for any other text.
pub open spec fn spec_hex_address20(h: Seq<u8>) -> Option<Seq<u8>> {
    if h.len() == 40 && forall|i: int| 0 <= i < 40 ==> is_hex_digit(#[trigger] h[i]) {
        Some(Seq::new(20, |i: int| (hex_val(h[2 * i]) * 16 + hex_val(h[2 * i + 1])) as u8))
    } else {
        None
    }
}

/// Decodes exactly 20 bytes from hexadecimal text.
///
/// Calls `<[u8; 20] as hex::FromHex>::from_hex`, which accepts exactly 40
/// hexadecimal digits of either case and decodes each pair as one byte, high
/// nibble first; any other input is an error.
#[verifier::external_body]
fn address20_from_hex(hex: &[u8]) -> (r: Option<[u8; 20]>)
    ensures
        match r {
            Some(a) => spec_hex_address20(hex@) == Some(a@),
            None => spec_hex_address20(hex@) is None,
        },
{
    <[u8; 20] as hex::FromHex>::from_hex(hex).ok()
}

/// The bytes of ASCII characters, or `None` when one is not ASCII.
pub open spec fn ascii_bytes(s: Seq<char>) -> Option<Seq<u8>> {
    if forall|i: int| 0 <= i < s.len() ==> (#[trigger] s[i] as u32) < 128 {
        Some(s.map_values(|c: char| (c as u32) as u8))
    } else {
        None
    }
}

/// The address an Ethereum address text stands for: its hexadecimal digits
/// after any `"0x"` prefixes.
pub open spec fn spec_address20(s: Seq<char>) -> Option<Seq<u8>> {
    match ascii_bytes(strip_0x(s)) {
        Some(b) => spec_hex_address20(b),
        None => None,
    }
}

/// The 32-byte account an address stands for: 12 zero bytes, then the address.
pub open spec fn padded_account(a: Seq<u8>) -> Seq<u8> {
    Seq::new(12, |i: int| 0u8) + a
}

/// Errors of the parsing pallet.
#[derive(Debug, Clone, Copy, PartialEq, Eq, Structural)]
pub enum ParsingError {
    /// The text is not a hexadecimal Ethereum address.
    InvalidHexAddress,
    /// The 32 bytes do not decode into an account.
    FailedToDecodeAccountId,
}

/// Decodes a chain account from 32 bytes: an account is its 32 bytes, so
/// the decoding keeps them all.
pub fn convert_account_id(account_id32: [u8; 32]) -> (r: Result<AccountId32, ParsingError>)
    ensures
        r == Ok::<AccountId32, ParsingError>(account_id32),
{
    Ok(account_id32)
}

/// The account an Ethereum address text stands for.
pub open spec fn spec_eth_account(s: Seq<char>) -> Option<AccountId32> {
    match spec_address20(s) {
        Some(a) => Some(account_of(padded_account(a))),
        None => None,
    }
}

fn strip_0x_chars(s: &Vec<char>) -> (r: Vec<char>)
    ensures
        r@ == strip_0x(s@),
{
    let mut start: usize = 0;
    assert(s@.skip(0) =~= s@);
    while s.len() - start >= 2 && s[start] == '0' && s[start + 1] == 'x'
        invariant
            start <= s@.len(),
            strip_0x(s@.skip(start as int)) == strip_0x(s@),
        decreases s.len() - start,
    {
        proof {
            assert(s@.skip(start as int).skip(2) =~= s@.skip(start + 2));
        }
        start += 2;
    }
    let mut r: Vec<char> = Vec::new();
    let mut i: usize = start;
    while i < s.len()
        invariant
            start <= i <= s@.len(),
            r@ == s@.subrange(start as int, i as int),
        decreases s.len() - i,
    {
        r.push(s[i]);
        i += 1;
        assert(r@ =~= s@.subrange(start as int, i as int));
    }
    assert(r@ =~= s@.skip(start as int));
    r
}

/// Turns an Ethereum wallet address (`0x` and 40 hexadecimal digits) into
/// the chain account it stands for.
pub fn eth_address_to_substrate_account_id(eth_addr_hex: &str) -> (r: Result<AccountId32, ParsingError>)
    ensures
        match spec_eth_account(eth_addr_hex@) {
            Some(a) => r == Ok::<AccountId32, ParsingError>(a),
            None => r == Err::<AccountId32, ParsingError>(ParsingError::InvalidHexAddress),
        },
{
    let cs = str_chars(eth_addr_hex);
    eth_chars_to_account(&cs)
}

fn eth_chars_to_account(cs: &Vec<char>) -> (r: Result<AccountId32, ParsingError>)
    ensures
        match spec_eth_account(cs@) {
            Some(a) => r == Ok::<AccountId32, ParsingError>(a),
            None => r == Err::<AccountId32, ParsingError>(ParsingError::InvalidHexAddress),
        },
{
    let h = strip_0x_chars(cs);
    let mut bytes: Vec<u8> = Vec::new();
    let mut i: usize = 0;
    while i < h.len()
        invariant
            i <= h@.len(),
            h@ == strip_0x(cs@),
            bytes@ == h@.take(i as int).map_values(|c: char| (c as u32) as u8),
            forall|j: int| 0 <= j < i ==> (#[trigger] h@[j] as u32) < 128,
        decreases h.len() - i,
    {
        let c = h[i];
        let u = c as u32;
        if u >= 128 {
            proof {
                assert(ascii_bytes(h@) is None) by {
                    assert(!((h@[i as int] as u32) < 128));
                }
            }
            return Err(ParsingError::InvalidHexAddress);
        }
        let ghost prev = bytes@;
        bytes.push(u as u8);
        proof {
            assert(h@.take(i + 1) =~= h@.take(i as int).push(c));
            assert(h@.take(i + 1).map_values(|c: char| (c as u32) as u8) =~= h@.take(i as int).map_values(
                |c: char| (c as u32) as u8,
            ).push((c as u32) as u8));
            assert(bytes@ =~= h@.take(i + 1).map_values(|c: char| (c as u32) as u8));
        }
        i += 1;
    }
    proof {
        assert(h@.take(h@.len() as int) =~= h@);
        assert(ascii_bytes(h@) == Some(bytes@));
    }
    let raw = match address20_from_hex(bytes.as_slice()) {
        Some(a) => a,
        None => {
            return Err(ParsingError::InvalidHexAddress);
        },
    };
    let mut data = [0u8; 32];
    let mut k: usize = 0;
    while k < 20
        invariant
            k <= 20,
            data@.len() == 32,
            forall|j: int| 0 <= j < 12 ==> data@[j] == 0,
            forall|j: int| 0 <= j < k ==> data@[12 + j] == raw@[j],
        decreases 20 - k,
    {
        data[12 + k] = raw[k];
        k += 1;
    }
    proof {
        assert(data@ =~= padded_account(raw@));
        let a = account_of(padded_account(raw@));
        assert(a@ == data@);
        assert(a =~= data);
    }
    convert_account_id(data)
}

fn trim_chars(s: &Vec<char>) -> (r: Vec<char>)
    ensures
        r@ == trim(s@),
{
    let mut lo: usize = 0;
    assert(s@.skip(0) =~= s@);
    while lo < s.len() && char_is_whitespace(s[lo])
        invariant
            lo <= s@.len(),
            trim_start(s@.skip(lo as int)) == trim_start(s@),
        decreases s.len() - lo,
    {
        proof {
            assert(s@.skip(lo as int).drop_first() =~= s@.skip(lo + 1));
        }
        lo += 1;
    }
    let ghost t = s@.skip(lo as int);
    assert(trim_start(s@) == t);
    let mut hi: usize = s.len();
    assert(t.take(t.len() as int) =~= t);
    while hi > lo && char_is_whitespace(s[hi - 1])
        invariant
            lo <= hi <= s@.len(),
            t == s@.skip(lo as int),
            trim_end(s@.subrange(lo as int, hi as int)) == trim_end(t),
        decreases hi - lo,
    {
        proof {
            assert(s@.subrange(lo as int, hi as int).drop_last() =~= s@.subrange(lo as int, hi - 1));
        }
        hi -= 1;
    }
    assert(s@.subrange(lo as int, s@.len() as int) =~= t);
    let mut r: Vec<char> = Vec::new();
    let mut i: usize = lo;
    while i < hi
        invariant
            lo <= i <= hi <= s@.len(),
            r@ == s@.subrange(lo as int, i as int),
        decreases hi - i,
    {
        r.push(s[i]);
        i += 1;
        assert(r@ =~= s@.subrange(lo as int, i as int));
    }
    r
}

/// The pieces of `s` between commas, and the piece after the last comma.
fn split_commas_chars(s: &Vec<char>) -> (r: Vec<Vec<char>>)
    ensures
        chars_list(r@) == split_commas(s@),
{
    let mut pieces: Vec<Vec<char>> = Vec::new();
    let mut cur: Vec<char> = Vec::new();
    let mut i: usize = 0;
    while i < s.len()
        invariant
            i <= s@.len(),
            chars_list(pieces@).push(cur@) == split_commas(s@.take(i as int)),
        decreases s.len() - i,
    {
        let c = s[i];
        let ghost before = chars_list(pieces@).push(cur@);
        proof {
            assert(s@.take(i + 1).drop_last() =~= s@.take(i as int));
            assert(s@.take(i + 1).last() == c);
        }
        if c == ',' {
            let done = cur;
            let ghost dv = done@;
            pieces.push(done);
            cur = Vec::new();
            proof {
                assert(chars_list(pieces@) =~= before);
                assert(chars_list(pieces@).push(cur@) =~= before.push(Seq::<char>::empty()));
            }
        } else {
            let ghost pv = chars_list(pieces@);
            cur.push(c);
            proof {
                assert(chars_list(pieces@).push(cur@) =~= before.update(
                    before.len() - 1,
                    before.last().push(c),
                ));
            }
        }
        i += 1;
    }
    assert(s@.take(s@.len() as int) =~= s@);
    let ghost pv = chars_list(pieces@);
    pieces.push(cur);
    assert(chars_list(pieces@) =~= pv.push(pieces@.last()@));
    pieces
}

/// The characters of each list.
pub open spec fn chars_list(v: Seq<Vec<char>>) -> Seq<Seq<char>> {
    v.map_values(|x: Vec<char>| x@)
}

/// The accounts of the texts that are Ethereum addresses, in order.
pub open spec fn accounts_of(pieces: Seq<Seq<char>>) -> Seq<AccountId32>
    decreases pieces.len(),
{
    if pieces.len() == 0 {
        Seq::empty()
    } else {
        let prev = accounts_of(pieces.drop_last());
        match spec_eth_account(trim(pieces.last())) {
            Some(a) => prev.push(a),
            None => prev,
        }
    }
}

/// The accounts that a comma-separated list of node addresses names,
/// each trimmed; entries that are no address are skipped.
pub open spec fn spec_nominations(s: Seq<char>) -> Seq<AccountId32> {
    accounts_of(split_commas(s))
}

/// The accounts a comma-separated list of addresses names.
pub fn nominations_of(nodes: &String) -> (r: Vec<AccountId32>)
    ensures
        r@ == spec_nominations(nodes@),
{
    let cs = str_chars(nodes.as_str());
    let pieces = split_commas_chars(&cs);
    let ghost ps = chars_list(pieces@);
    let mut out: Vec<AccountId32> = Vec::new();
    let mut i: usize = 0;
    while i < pieces.len()
        invariant
            i <= pieces@.len(),
            ps == chars_list(pieces@),
            out@ == accounts_of(ps.take(i as int)),
        decreases pieces.len() - i,
    {
        let t = trim_chars(&pieces[i]);
        proof {
            assert(ps.take(i + 1).drop_last() =~= ps.take(i as int));
            assert(ps.take(i + 1).last() == pieces@[i as int]@);
        }
        match eth_chars_to_account(&t) {
            Ok(a) => {
                out.push(a);
            },
            Err(_) => {},
        }
        i += 1;
    }
    assert(ps.take(ps.len() as int) =~= ps);
    out
}

// ───────────────────────── staking tables ─────────────────────────

/// An unsigned 256-bit decimal value, as its high and low 128 bits.
#[derive(Debug, Clone, Copy, PartialEq, Eq, Structural)]
pub struct U256 {
    /// The high 128 bits.
    pub high: u128,
    /// The low 128 bits.
    pub low: u128,
}

/// A value clamped to `u128`: the largest `u128` when it does not fit.
pub open spec fn clamp_u128(v: U256) -> u128 {
    if v.high > 0 {
        u128::MAX
    } else {
        v.low
    }
}

/// The values of one column.
#[derive(Debug, PartialEq, Eq)]
pub enum ColumnValues {
    /// A `VARCHAR` column.
    VarChar(Vec<String>),
    /// A `DECIMAL` column.
    Decimal(Vec<U256>),
    /// A column of another type, with its number of rows.
    Other(usize),
}

/// The number of rows of a column.
pub open spec fn column_len(c: ColumnValues) -> nat {
    match c {
        ColumnValues::VarChar(v) => v@.len(),
        ColumnValues::Decimal(v) => v@.len(),
        ColumnValues::Other(n) => n as nat,
    }
}

/// A table of rows, by named columns.
#[derive(Debug, PartialEq, Eq)]
pub struct OnChainTable {
    /// The columns: each name and its values.
    pub columns: Vec<(String, ColumnValues)>,
    /// The number of rows.
    pub num_rows: usize,
}

/// The strings of a list.
pub open spec fn strings_view(v: Seq<String>) -> Seq<Seq<char>> {
    v.map_values(|s: String| s@)
}

/// The index of the first column named `name`, if any.
pub open spec fn first_column(cols: Seq<(String, ColumnValues)>, name: Seq<char>) -> Option<int>
    decreases cols.len(),
{
    if cols.len() == 0 {
        None
    } else if cols[0].0@ == name {
        Some(0)
    } else {
        match first_column(cols.drop_first(), name) {
            Some(i) => Some(i + 1),
            None => None,
        }
    }
}

/// The strings of the first column named `name`, if it holds strings.
pub open spec fn spec_varchars(t: OnChainTable, name: Seq<char>) -> Option<Seq<Seq<char>>> {
    match first_column(t.columns@, name) {
        Some(i) => match t.columns@[i].1 {
            ColumnValues::VarChar(v) => Some(strings_view(v@)),
            _ => None,
        },
        None => None,
    }
}

/// The decimals of the first column named `name`, if it holds decimals.
pub open spec fn spec_decimals(t: OnChainTable, name: Seq<char>) -> Option<Seq<U256>> {
    match first_column(t.columns@, name) {
        Some(i) => match t.columns@[i].1 {
            ColumnValues::Decimal(v) => Some(v@),
            _ => None,
        },
        None => None,
    }
}

proof fn lemma_first_column_range(cols: Seq<(String, ColumnValues)>, name: Seq<char>)
    ensures
        first_column(cols, name) matches Some(i) ==> 0 <= i < cols.len() && cols[i].0@ == name,
    decreases cols.len(),
{
    if cols.len() > 0 {
        lemma_first_column_range(cols.drop_first(), name);
    }
}

proof fn lemma_first_column(cols: Seq<(String, ColumnValues)>, name: Seq<char>, i: int)
    requires
        0 <= i <= cols.len(),
        forall|j: int| 0 <= j < i ==> (#[trigger] cols[j]).0@ != name,
    ensures
        i < cols.len() && cols[i].0@ == name ==> first_column(cols, name) == Some(i),
        i == cols.len() ==> first_column(cols, name) is None,
    decreases i,
{
    if i > 0 {
        assert(cols[0].0@ != name);
        assert forall|j: int| 0 <= j < i - 1 implies (#[trigger] cols.drop_first()[j]).0@ != name by {
            assert(cols.drop_first()[j] == cols[j + 1]);
        }
        lemma_first_column(cols.drop_first(), name, i - 1);
    }
}

impl OnChainTable {
    /// Every column has one value per row.
    pub open spec fn wf(self) -> bool {
        forall|i: int|
            0 <= i < self.columns@.len() ==> column_len(#[trigger] self.columns@[i].1)
                == self.num_rows
    }

    fn find_column(&self, name: &str) -> (r: Option<usize>)
        ensures
            r is None <==> first_column(self.columns@, name@) is None,
            r matches Some(i) ==> i < self.columns@.len() && first_column(self.columns@, name@) == Some(
                i as int,
            ),
    {
        proof {
            lemma_first_column_range(self.columns@, name@);
        }
        let wanted = name.to_owned();
        let mut i: usize = 0;
        while i < self.columns.len()
            invariant
                i <= self.columns@.len(),
                wanted@ == name@,
                forall|j: int| 0 <= j < i ==> (#[trigger] self.columns@[j]).0@ != name@,
            decreases self.columns.len() - i,
        {
            if self.columns[i].0 == wanted {
                proof {
                    lemma_first_column(self.columns@, name@, i as int);
                }
                return Some(i);
            }
            i += 1;
        }
        proof {
            lemma_first_column(self.columns@, name@, i as int);
        }
        None
    }

    /// The strings of the column named `name`, if it is a `VARCHAR` column.
    pub fn get_varchars_by_column(&self, name: &str) -> (r: Option<Vec<String>>)
        ensures
            match spec_varchars(*self, name@) {
                Some(v) => r matches Some(x) && strings_view(x@) == v,
                None => r is None,
            },
    {
        match self.find_column(name) {
            Some(i) => match &self.columns[i].1 {
                ColumnValues::VarChar(v) => {
                    let mut out: Vec<String> = Vec::new();
                    let mut k: usize = 0;
                    while k < v.len()
                        invariant
                            k <= v@.len(),
                            strings_view(out@) == strings_view(v@.take(k as int)),
                        decreases v.len() - k,
                    {
                        let ghost prev = out@;
                        out.push(v[k].clone());
                        proof {
                            assert(v@.take(k + 1) =~= v@.take(k as int).push(v@[k as int]));
                            assert(strings_view(out@) =~= strings_view(prev).push(v@[k as int]@));
                            assert(strings_view(out@) =~= strings_view(v@.take(k + 1)));
                        }
                        k += 1;
                    }
                    assert(v@.take(v@.len() as int) =~= v@);
                    Some(out)
                },
                _ => None,
            },
            None => None,
        }
    }

    /// The decimals of the column named `name`, if it is a `DECIMAL` column.
    pub fn get_decimal_by_column(&self, name: &str) -> (r: Option<Vec<U256>>)
        ensures
            match spec_decimals(*self, name@) {
                Some(v) => r matches Some(x) && x@ == v,
                None => r is None,
            },
    {
        match self.find_column(name) {
            Some(i) => match &self.columns[i].1 {
                ColumnValues::Decimal(v) => {
                    let mut out: Vec<U256> = Vec::new();
                    let mut k: usize = 0;
                    while k < v.len()
                        invariant
                            k <= v@.len(),
                            out@ == v@.take(k as int),
                        decreases v.len() - k,
                    {
                        out.push(v[k]);
                        k += 1;
                        assert(out@ =~= v@.take(k as int));
                    }
                    assert(v@.take(v@.len() as int) =~= v@);
                    Some(out)
                },
                _ => None,
            },
            None => None,
        }
    }
}

proof fn lemma_column_rows(t: OnChainTable, name: Seq<char>)
    requires
        t.wf(),
    ensures
        spec_varchars(t, name) matches Some(v) ==> v.len() == t.num_rows,
        spec_decimals(t, name) matches Some(v) ==> v.len() == t.num_rows,
{
    lemma_first_column_range(t.columns@, name);
    if let Some(i) = first_column(t.columns@, name) {
        assert(column_len(t.columns@[i].1) == t.num_rows);
    }
}

/// A request to stake: the staker, the amount, and the nodes it nominates.
#[derive(Debug, PartialEq, Eq)]
pub struct StakeRequest {
    /// The staker.
    pub staker_id: AccountId32,
    /// The amount staked.
    pub amount: u128,
    /// The nominated nodes.
    pub nominations: Vec<AccountId32>,
}

impl View for StakeRequest {
    type V = (AccountId32, u128, Seq<AccountId32>);

    open spec fn view(&self) -> (AccountId32, u128, Seq<AccountId32>) {
        (self.staker_id, self.amount, self.nominations@)
    }
}

/// A request to nominate nodes.
#[derive(Debug, PartialEq, Eq)]
pub struct NominateRequest {
    /// The nominator.
    pub nominator_id: AccountId32,
    /// The nominated nodes.
    pub nominations: Vec<AccountId32>,
}

impl View for NominateRequest {
    type V = (AccountId32, Seq<AccountId32>);

    open spec fn view(&self) -> (AccountId32, Seq<AccountId32>) {
        (self.nominator_id, self.nominations@)
    }
}

/// A request to start unstaking.
#[derive(Debug, Clone, Copy, PartialEq, Eq)]
pub struct UnstakeInitiatedRequest {
    /// The staker.
    pub staker_id: AccountId32,
}

/// A request to register a node.
#[derive(Debug, PartialEq, Eq)]
pub struct NodeRegisteredRequest {
    /// The node's public key.
    pub node_public_key: String,
    /// The node's operator.
    pub operator_id: AccountId32,
}

impl View for NodeRegisteredRequest {
    type V = (Seq<char>, AccountId32);

    open spec fn view(&self) -> (Seq<char>, AccountId32) {
        (self.node_public_key@, self.operator_id)
    }
}

/// A request to cancel unstaking.
#[derive(Debug, Clone, Copy, PartialEq, Eq)]
pub struct UnstakeCancelledRequest {
    /// The staker.
    pub staker_id: AccountId32,
}

/// The stake requests of the first `n` rows: one per row whose staker is
/// an address, with its amount clamped to `u128` and its nominations.
pub open spec fn spec_stake_requests(
    ids: Seq<Seq<char>>,
    nodes: Seq<Seq<char>>,
    stake: Seq<U256>,
    n: nat,
) -> Seq<(AccountId32, u128, Seq<AccountId32>)>
    decreases n,
{
    if n == 0 {
        Seq::empty()
    } else {
        let prev = spec_stake_requests(ids, nodes, stake, (n - 1) as nat);
        let i = n - 1;
        match spec_eth_account(ids[i]) {
            Some(a) => prev.push((a, clamp_u128(stake[i]), spec_nominations(nodes[i]))),
            None => prev,
        }
    }
}

/// The nominate requests of the first `n` rows.
pub open spec fn spec_nominate_requests(
    nominators: Seq<Seq<char>>,
    nodes: Seq<Seq<char>>,
    n: nat,
) -> Seq<(AccountId32, Seq<AccountId32>)>
    decreases n,
{
    if n == 0 {
        Seq::empty()
    } else {
        let prev = spec_nominate_requests(nominators, nodes, (n - 1) as nat);
        let i = n - 1;
        match spec_eth_account(nominators[i]) {
            Some(a) => prev.push((a, spec_nominations(nodes[i]))),
            None => prev,
        }
    }
}

/// The accounts of the first `n` texts that are addresses.
pub open spec fn spec_accounts(ids: Seq<Seq<char>>, n: nat) -> Seq<AccountId32>
    decreases n,
{
    if n == 0 {
        Seq::empty()
    } else {
        let prev = spec_accounts(ids, (n - 1) as nat);
        match spec_eth_account(ids[n - 1]) {
            Some(a) => prev.push(a),
            None => prev,
        }
    }
}

/// An account whose first `k` bytes are those of `bytes`.
spec fn account_prefix(bytes: Seq<u8>, k: nat) -> AccountId32
    decreases k,
{
    if k == 0 {
        vstd::array::spec_array_fill_for_copy_type::<u8, 32>(0u8)
    } else {
        vstd::array::spec_array_update(account_prefix(bytes, (k - 1) as nat), k - 1, bytes[k - 1])
    }
}

proof fn lemma_account_prefix(bytes: Seq<u8>, k: nat)
    requires
        k <= 32,
    ensures
        account_prefix(bytes, k)@.len() == 32,
        forall|i: int| 0 <= i < k ==> account_prefix(bytes, k)@[i] == bytes[i],
    decreases k,
{
    broadcast use vstd::array::group_array_axioms;

    if k > 0 {
        lemma_account_prefix(bytes, (k - 1) as nat);
    } else {
        let a = vstd::array::spec_array_fill_for_copy_type::<u8, 32>(0u8);
        assert(a@.len() == 32);
    }
}

/// The account of an address text is 12 zero bytes followed by the 20
/// bytes of the address, and a text that is no address names no account.
pub proof fn lemma_eth_account_bytes(s: Seq<char>)
    ensures
        spec_address20(s) matches Some(a) ==> spec_eth_account(s) is Some && spec_eth_account(
            s,
        )->0@ == Seq::new(12, |i: int| 0u8) + a,
        spec_address20(s) is None ==> spec_eth_account(s) is None,
{
    if let Some(a) = spec_address20(s) {
        let bytes = padded_account(a);
        assert(a.len() == 20);
        lemma_account_prefix(bytes, 32);
        let w = account_prefix(bytes, 32);
        assert(w@ =~= bytes);
        assert(account_of(bytes)@ == bytes);
    }
}

/// The accounts of a column of texts are, in row order, the accounts of the
/// rows that are addresses, one per such row and nothing else.
pub proof fn lemma_accounts_are_the_address_rows(ids: Seq<Seq<char>>)
    ensures
        spec_accounts(ids, ids.len()) == ids.filter_map(|s: Seq<char>| spec_eth_account(s)),
        forall|i: int|
            0 <= i < ids.len() && (#[trigger] spec_eth_account(ids[i])) is Some ==> spec_accounts(
                ids,
                ids.len(),
            ).contains(spec_eth_account(ids[i])->0),
{
    lemma_accounts_prefix(ids, ids.len());
    assert(ids.take(ids.len() as int) =~= ids);
    assert forall|i: int|
        0 <= i < ids.len() && (#[trigger] spec_eth_account(ids[i])) is Some implies spec_accounts(
            ids,
            ids.len(),
        ).contains(spec_eth_account(ids[i])->0) by {
        lemma_account_of_row_kept(ids, ids.len(), i);
    }
}

proof fn lemma_accounts_prefix(ids: Seq<Seq<char>>, n: nat)
    requires
        n <= ids.len(),
    ensures
        spec_accounts(ids, n) == ids.take(n as int).filter_map(|s: Seq<char>| spec_eth_account(s)),
    decreases n,
{
    let f = |s: Seq<char>| spec_eth_account(s);
    if n == 0 {
        assert(ids.take(0) =~= Seq::<Seq<char>>::empty());
    } else {
        lemma_accounts_prefix(ids, (n - 1) as nat);
        let t = ids.take(n as int);
        assert(t.drop_last() =~= ids.take(n - 1));
        assert(t.last() == ids[n - 1]);
        match spec_eth_account(ids[n - 1]) {
            Some(a) => {
                assert(spec_accounts(ids, (n - 1) as nat).push(a) =~= t.drop_last().filter_map(f)
                    + seq![a]);
            },
            None => {},
        }
    }
}

proof fn lemma_account_of_row_kept(ids: Seq<Seq<char>>, n: nat, i: int)
    requires
        0 <= i < n <= ids.len(),
        spec_eth_account(ids[i]) is Some,
    ensures
        spec_accounts(ids, n).contains(spec_eth_account(ids[i])->0),
    decreases n,
{
    let prev = spec_accounts(ids, (n - 1) as nat);
    if i == n - 1 {
        assert(spec_accounts(ids, n) == prev.push(spec_eth_account(ids[i])->0));
        assert(spec_accounts(ids, n)[prev.len() as int] == spec_eth_account(ids[i])->0);
    } else {
        lemma_account_of_row_kept(ids, (n - 1) as nat, i);
        let k = choose|k: int| 0 <= k < prev.len() && prev[k] == spec_eth_account(ids[i])->0;
        match spec_eth_account(ids[n - 1]) {
            Some(a) => {
                assert(spec_accounts(ids, n)[k] == prev[k]);
            },
            None => {},
        }
    }
}

/// The node registrations of the first `n` rows: one per row whose
/// operator is an address.
pub open spec fn spec_node_requests(keys: Seq<Seq<char>>, operators: Seq<Seq<char>>, n: nat) -> Seq<
    (Seq<char>, AccountId32),
>
    decreases n,
{
    if n == 0 {
        Seq::empty()
    } else {
        let prev = spec_node_requests(keys, operators, (n - 1) as nat);
        match spec_eth_account(operators[n - 1]) {
            Some(a) => prev.push((keys[n - 1], a)),
            None => prev,
        }
    }
}

/// The views of stake requests.
pub open spec fn stake_view(v: Seq<StakeRequest>) -> Seq<(AccountId32, u128, Seq<AccountId32>)> {
    v.map_values(|r: StakeRequest| r@)
}

/// The views of nominate requests.
pub open spec fn nominate_view(v: Seq<NominateRequest>) -> Seq<(AccountId32, Seq<AccountId32>)> {
    v.map_values(|r: NominateRequest| r@)
}

/// The views of node registrations.
pub open spec fn node_view(v: Seq<NodeRegisteredRequest>) -> Seq<(Seq<char>, AccountId32)> {
    v.map_values(|r: NodeRegisteredRequest| r@)
}

fn clamp_amount(v: U256) -> (r: u128)
    ensures
        r == clamp_u128(v),
{
    if v.high > 0 {
        u128::MAX
    } else {
        v.low
    }
}

/// The stake requests of a `STAKED` table: rows of `STAKER`, `NODES` and
/// `AMOUNT`; none unless the table has all three.
pub fn parse_stake(oc_table: &OnChainTable) -> (r: Vec<StakeRequest>)
    requires
        oc_table.wf(),
    ensures
        match (
            spec_varchars(*oc_table, "STAKER"@),
            spec_varchars(*oc_table, "NODES"@),
            spec_decimals(*oc_table, "AMOUNT"@),
        ) {
            (Some(ids), Some(nodes), Some(stake)) => stake_view(r@) == spec_stake_requests(
                ids,
                nodes,
                stake,
                ids.len(),
            ),
            _ => r@.len() == 0,
        },
{
    let mut out: Vec<StakeRequest> = Vec::new();
    let staker_id = oc_table.get_varchars_by_column("STAKER");
    let target_nodes = oc_table.get_varchars_by_column("NODES");
    let stake_amount = oc_table.get_decimal_by_column("AMOUNT");
    proof {
        lemma_column_rows(*oc_table, "STAKER"@);
        lemma_column_rows(*oc_table, "NODES"@);
        lemma_column_rows(*oc_table, "AMOUNT"@);
    }
    match (staker_id, target_nodes, stake_amount) {
        (Some(ids), Some(nodes), Some(stake)) => {
            let ghost iv = strings_view(ids@);
            let ghost nv = strings_view(nodes@);
            let mut i: usize = 0;
            while i < ids.len()
                invariant
                    i <= ids@.len(),
                    ids@.len() == nodes@.len(),
                    ids@.len() == stake@.len(),
                    iv == strings_view(ids@),
                    nv == strings_view(nodes@),
                    stake_view(out@) == spec_stake_requests(iv, nv, stake@, i as nat),
                decreases ids.len() - i,
            {
                let ghost prev = out@;
                let cs = str_chars(ids[i].as_str());
                match eth_chars_to_account(&cs) {
                    Ok(a) => {
                        let noms = nominations_of(&nodes[i]);
                        out.push(
                            StakeRequest {
                                staker_id: a,
                                amount: clamp_amount(stake[i]),
                                nominations: noms,
                            },
                        );
                        proof {
                            assert(stake_view(out@) =~= stake_view(prev).push(out@.last()@));
                        }
                    },
                    Err(_) => {},
                }
                i += 1;
            }
            out
        },
        _ => out,
    }
}

/// The nominate requests of a `NOMINATE` table: rows of `NOMINATOR` and
/// `NODES`; none unless the table has both.
pub fn parse_nominate(oc_table: &OnChainTable) -> (r: Vec<NominateRequest>)
    requires
        oc_table.wf(),
    ensures
        match (spec_varchars(*oc_table, "NOMINATOR"@), spec_varchars(*oc_table, "NODES"@)) {
            (Some(ids), Some(nodes)) => nominate_view(r@) == spec_nominate_requests(
                ids,
                nodes,
                ids.len(),
            ),
            _ => r@.len() == 0,
        },
{
    let mut out: Vec<NominateRequest> = Vec::new();
    let nominators = oc_table.get_varchars_by_column("NOMINATOR");
    let target_nodes = oc_table.get_varchars_by_column("NODES");
    proof {
        lemma_column_rows(*oc_table, "NOMINATOR"@);
        lemma_column_rows(*oc_table, "NODES"@);
    }
    match (nominators, target_nodes) {
        (Some(ids), Some(nodes)) => {
            let ghost iv = strings_view(ids@);
            let ghost nv = strings_view(nodes@);
            let mut i: usize = 0;
            while i < ids.len()
                invariant
                    i <= ids@.len(),
                    ids@.len() == nodes@.len(),
                    iv == strings_view(ids@),
                    nv == strings_view(nodes@),
                    nominate_view(out@) == spec_nominate_requests(iv, nv, i as nat),
                decreases ids.len() - i,
            {
                let ghost prev = out@;
                let cs = str_chars(ids[i].as_str());
                match eth_chars_to_account(&cs) {
                    Ok(a) => {
                        let noms = nominations_of(&nodes[i]);
                        out.push(NominateRequest { nominator_id: a, nominations: noms });
                        proof {
                            assert(nominate_view(out@) =~= nominate_view(prev).push(out@.last()@));
                        }
                    },
                    Err(_) => {},
                }
                i += 1;
            }
            out
        },
        _ => out,
    }
}

fn accounts_of_column(ids: &Vec<String>) -> (r: Vec<AccountId32>)
    ensures
        r@ == spec_accounts(strings_view(ids@), ids@.len()),
{
    let ghost iv = strings_view(ids@);
    let mut out: Vec<AccountId32> = Vec::new();
    let mut i: usize = 0;
    while i < ids.len()
        invariant
            i <= ids@.len(),
            iv == strings_view(ids@),
            out@ == spec_accounts(iv, i as nat),
        decreases ids.len() - i,
    {
        let cs = str_chars(ids[i].as_str());
        match eth_chars_to_account(&cs) {
            Ok(a) => {
                out.push(a);
            },
            Err(_) => {},
        }
        i += 1;
    }
    out
}

/// The unstake requests of an `UNSTAKEINITIATED` table: one per `STAKER`
/// that is an address.
pub fn parse_unstakeinitiated(oc_table: &OnChainTable) -> (r: Vec<UnstakeInitiatedRequest>)
    ensures
        match spec_varchars(*oc_table, "STAKER"@) {
            Some(ids) => r@.map_values(|q: UnstakeInitiatedRequest| q.staker_id) == spec_accounts(
                ids,
                ids.len(),
            ),
            None => r@.len() == 0,
        },
{
    let mut out: Vec<UnstakeInitiatedRequest> = Vec::new();
    match oc_table.get_varchars_by_column("STAKER") {
        Some(stakers) => {
            let accounts = accounts_of_column(&stakers);
            let mut i: usize = 0;
            while i < accounts.len()
                invariant
                    i <= accounts@.len(),
                    out@.map_values(|q: UnstakeInitiatedRequest| q.staker_id) == accounts@.take(
                        i as int,
                    ),
                decreases accounts.len() - i,
            {
                let ghost prev = out@;
                out.push(UnstakeInitiatedRequest { staker_id: accounts[i] });
                proof {
                    assert(accounts@.take(i + 1) =~= accounts@.take(i as int).push(accounts@[i as int]));
                    assert(out@.map_values(|q: UnstakeInitiatedRequest| q.staker_id) =~= prev.map_values(
                        |q: UnstakeInitiatedRequest| q.staker_id,
                    ).push(accounts@[i as int]));
                }
                i += 1;
            }
            assert(accounts@.take(accounts@.len() as int) =~= accounts@);
            out
        },
        None => out,
    }
}

/// The cancellations of an `UNSTAKECANCELLED` table: one per `STAKER` that
/// is an address.
pub fn parse_unstakecancelled(oc_table: &OnChainTable) -> (r: Vec<UnstakeCancelledRequest>)
    ensures
        match spec_varchars(*oc_table, "STAKER"@) {
            Some(ids) => r@.map_values(|q: UnstakeCancelledRequest| q.staker_id) == spec_accounts(
                ids,
                ids.len(),
            ),
            None => r@.len() == 0,
        },
{
    let mut out: Vec<UnstakeCancelledRequest> = Vec::new();
    match oc_table.get_varchars_by_column("STAKER") {
        Some(stakers) => {
            let accounts = accounts_of_column(&stakers);
            let mut i: usize = 0;
            while i < accounts.len()
                invariant
                    i <= accounts@.len(),
                    out@.map_values(|q: UnstakeCancelledRequest| q.staker_id) == accounts@.take(
                        i as int,
                    ),
                decreases accounts.len() - i,
            {
                let ghost prev = out@;
                out.push(UnstakeCancelledRequest { staker_id: accounts[i] });
                proof {
                    assert(accounts@.take(i + 1) =~= accounts@.take(i as int).push(accounts@[i as int]));
                    assert(out@.map_values(|q: UnstakeCancelledRequest| q.staker_id) =~= prev.map_values(
                        |q: UnstakeCancelledRequest| q.staker_id,
                    ).push(accounts@[i as int]));
                }
                i += 1;
            }
            assert(accounts@.take(accounts@.len() as int) =~= accounts@);
            out
        },
        None => out,
    }
}

/// The node registrations of a `NODEREGISTERED` table: rows of
/// `NODEPUBLICKEY` and `OPERATOR`; none unless the table has both.
pub fn parse_noderegistered(oc_table: &OnChainTable) -> (r: Vec<NodeRegisteredRequest>)
    requires
        oc_table.wf(),
    ensures
        match (spec_varchars(*oc_table, "NODEPUBLICKEY"@), spec_varchars(*oc_table, "OPERATOR"@)) {
            (Some(keys), Some(ops)) => node_view(r@) == spec_node_requests(keys, ops, ops.len()),
            _ => r@.len() == 0,
        },
{
    let mut out: Vec<NodeRegisteredRequest> = Vec::new();
    let node_pks = oc_table.get_varchars_by_column("NODEPUBLICKEY");
    let operators = oc_table.get_varchars_by_column("OPERATOR");
    proof {
        lemma_column_rows(*oc_table, "NODEPUBLICKEY"@);
        lemma_column_rows(*oc_table, "OPERATOR"@);
    }
    match (node_pks, operators) {
        (Some(keys), Some(ops)) => {
            let ghost kv = strings_view(keys@);
            let ghost ov = strings_view(ops@);
            let mut i: usize = 0;
            while i < ops.len()
                invariant
                    i <= ops@.len(),
                    ops@.len() == keys@.len(),
                    kv == strings_view(keys@),
                    ov == strings_view(ops@),
                    node_view(out@) == spec_node_requests(kv, ov, i as nat),
                decreases ops.len() - i,
            {
                let ghost prev = out@;
                let cs = str_chars(ops[i].as_str());
                match eth_chars_to_account(&cs) {
                    Ok(a) => {
                        out.push(
                            NodeRegisteredRequest { node_public_key: keys[i].clone(), operator_id: a },
                        );
                        proof {
                            assert(node_view(out@) =~= node_view(prev).push(out@.last()@));
                        }
                    },
                    Err(_) => {},
                }
                i += 1;
            }
            out
        },
        _ => out,
    }
}

/// The requests a finalized staking table holds, by the table's name.
#[derive(Debug, PartialEq, Eq)]
pub enum StakingRequests {
    /// From a `STAKED` table.
    Stake(Vec<StakeRequest>),
    /// From a `NOMINATE` table.
    Nominate(Vec<NominateRequest>),
    /// From an `UNSTAKEINITIATED` table.
    UnstakeInitiated(Vec<UnstakeInitiatedRequest>),
    /// From a `NODEREGISTERED` table.
    NodeRegistered(Vec<NodeRegisteredRequest>),
    /// From an `UNSTAKECANCELLED` table.
    UnstakeCancelled(Vec<UnstakeCancelledRequest>),
    /// The table is not a staking table.
    Ignored,
}

fn name_is(name: &Vec<u8>, s: &str) -> (r: bool)
    ensures
        r == (name@ == vstd::utf8::encode_utf8(s@)),
{
    let b = s.as_bytes();
    if name.len() != b.len() {
        return false;
    }
    let mut i: usize = 0;
    while i < b.len()
        invariant
            name@.len() == b@.len(),
            b@ == vstd::utf8::encode_utf8(s@),
            i <= b@.len(),
            forall|j: int| 0 <= j < i ==> name@[j] == b@[j],
        decreases b.len() - i,
    {
        if name[i] != b[i] {
            assert(name@[i as int] != b@[i as int]);
            return false;
        }
        i += 1;
    }
    assert(name@ =~= b@);
    true
}

/// Which staking table a table name names.
pub open spec fn staking_kind(name: Seq<u8>) -> int {
    if name == vstd::utf8::encode_utf8("STAKED"@) {
        1
    } else if name == vstd::utf8::encode_utf8("NOMINATE"@) {
        2
    } else if name == vstd::utf8::encode_utf8("UNSTAKEINITIATED"@) {
        3
    } else if name == vstd::utf8::encode_utf8("NODEREGISTERED"@) {
        4
    } else if name == vstd::utf8::encode_utf8("UNSTAKECANCELLED"@) {
        5
    } else {
        0
    }
}

/// The requests of a finalized table, by its name: `STAKED`, `NOMINATE`,
/// `UNSTAKEINITIATED`, `NODEREGISTERED` or `UNSTAKECANCELLED`; any other
/// table holds none.
pub fn parse_staking(table_name: &Vec<u8>, oc_table: &OnChainTable) -> (r: StakingRequests)
    requires
        oc_table.wf(),
    ensures
        staking_kind(table_name@) == 1 <==> r is Stake,
        staking_kind(table_name@) == 2 <==> r is Nominate,
        staking_kind(table_name@) == 3 <==> r is UnstakeInitiated,
        staking_kind(table_name@) == 4 <==> r is NodeRegistered,
        staking_kind(table_name@) == 5 <==> r is UnstakeCancelled,
        staking_kind(table_name@) == 0 <==> r is Ignored,
        r matches StakingRequests::Stake(v) ==> match (
            spec_varchars(*oc_table, "STAKER"@),
            spec_varchars(*oc_table, "NODES"@),
            spec_decimals(*oc_table, "AMOUNT"@),
        ) {
            (Some(ids), Some(nodes), Some(stake)) => stake_view(v@) == spec_stake_requests(
                ids,
                nodes,
                stake,
                ids.len(),
            ),
            _ => v@.len() == 0,
        },
        r matches StakingRequests::Nominate(v) ==> match (
            spec_varchars(*oc_table, "NOMINATOR"@),
            spec_varchars(*oc_table, "NODES"@),
        ) {
            (Some(ids), Some(nodes)) => nominate_view(v@) == spec_nominate_requests(ids, nodes, ids.len()),
            _ => v@.len() == 0,
        },
        r matches StakingRequests::UnstakeInitiated(v) ==> match spec_varchars(*oc_table, "STAKER"@) {
            Some(ids) => v@.map_values(|q: UnstakeInitiatedRequest| q.staker_id) == spec_accounts(
                ids,
                ids.len(),
            ),
            None => v@.len() == 0,
        },
        r matches StakingRequests::NodeRegistered(v) ==> match (
            spec_varchars(*oc_table, "NODEPUBLICKEY"@),
            spec_varchars(*oc_table, "OPERATOR"@),
        ) {
            (Some(keys), Some(ops)) => node_view(v@) == spec_node_requests(keys, ops, ops.len()),
            _ => v@.len() == 0,
        },
        r matches StakingRequests::UnstakeCancelled(v) ==> match spec_varchars(*oc_table, "STAKER"@) {
            Some(ids) => v@.map_values(|q: UnstakeCancelledRequest| q.staker_id) == spec_accounts(
                ids,
                ids.len(),
            ),
            None => v@.len() == 0,
        },
{
    if name_is(table_name, "STAKED") {
        StakingRequests::Stake(parse_stake(oc_table))
    } else if name_is(table_name, "NOMINATE") {
        StakingRequests::Nominate(parse_nominate(oc_table))
    } else if name_is(table_name, "UNSTAKEINITIATED") {
        StakingRequests::UnstakeInitiated(parse_unstakeinitiated(oc_table))
    } else if name_is(table_name, "NODEREGISTERED") {
        StakingRequests::NodeRegistered(parse_noderegistered(oc_table))
    } else if name_is(table_name, "UNSTAKECANCELLED") {
        StakingRequests::UnstakeCancelled(parse_unstakecancelled(oc_table))
    } else {
        StakingRequests::Ignored
    }
}

/// `x` saturated to `u64`.
pub open spec fn saturate_u64(x: u128) -> u64 {
    if x > u64::MAX {
        u64::MAX
    } else {
        x as u64
    }
}

/// What staking `amount` moves for a staker whose free balance is
/// `free_balance`: the balance is raised to the free balance plus the
/// amount (saturating), and the amount, saturated to 64 bits, is bonded.
pub fn stake_balances(amount: u128, free_balance: u128) -> (r: (u128, u64))
    ensures
        r.0 == (if free_balance + amount > u128::MAX {
            u128::MAX
        } else {
            (free_balance + amount) as u128
        }),
        r.1 == saturate_u64(amount),
{
    let total = free_balance.saturating_add(amount);
    let bond: u64 = if amount > u64::MAX as u128 {
        u64::MAX
    } else {
        amount as u64
    };
    (total, bond)
}

/// What starting to unstake unbonds: the staker's whole free balance,
/// saturated to 64 bits.
pub fn unbond_amount(free_balance: u128) -> (r: u64)
    ensures
        r == saturate_u64(free_balance),
{
    if free_balance > u64::MAX as u128 {
        u64::MAX
    } else {
        free_balance as u64
    }
}

} // verus!
