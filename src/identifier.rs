//! Short random codes that name games and players.
use vstd::prelude::*;
use vstd::string::*;
use rand::Rng;

verus! {

/// Number of characters in every game and player identifier.
pub const ID_LENGTH: usize = 5;

/// Number of symbols an identifier is drawn from.
pub const SYMBOL_COUNT: usize = 16;

/// The symbols an identifier is drawn from, in order.
pub const SYMBOLS: &'static str = "ABCDEF0123456789";

pub open spec fn alphabet() -> Seq<char> {
    seq!['A', 'B', 'C', 'D', 'E', 'F', '0', '1', '2', '3', '4', '5', '6', '7', '8', '9']
}

/// Every character of `s` is one of the identifier symbols.
pub open spec fn drawn_from_alphabet(s: Seq<char>) -> bool {
    forall|i: int| 0 <= i < s.len() ==> #[trigger] alphabet().contains(s[i])
}

/// A well-formed identifier: `ID_LENGTH` symbols of the alphabet.
pub open spec fn is_identifier(s: Seq<char>) -> bool {
    s.len() == ID_LENGTH && drawn_from_alphabet(s)
}

/// Relies on rand's `thread_rng().gen_range(0..16)`: a value of the
/// half-open range, drawn by the thread-local generator.
#[verifier::external_body]
fn draw_symbol_index() -> (r: usize)
    ensures
        r < SYMBOL_COUNT,
{
    rand::thread_rng().gen_range(0..SYMBOL_COUNT)
}

/// Appends the `k`-th identifier symbol to `out`.
pub fn push_symbol(out: &mut String, k: usize)
    requires
        k < SYMBOL_COUNT,
    ensures
        final(out)@ == old(out)@.push(alphabet()[k as int]),
{
    proof {
        reveal_strlit("ABCDEF0123456789");
    }
    let sym = SYMBOLS.substring_char(k, k + 1);
    assert(sym@ =~= seq![alphabet()[k as int]]);
    out.append(sym);
}

/// Draws `length` symbols uniformly from the alphabet. Uniqueness is left to
/// the caller, which checks the result against the scope it must be unique in.
pub fn random_identifier(length: usize) -> (r: String)
    ensures
        r@.len() == length,
        drawn_from_alphabet(r@),
{
    let mut out = String::new();
    let mut n: usize = 0;
    while n < length
        invariant
            n <= length,
            out@.len() == n,
            drawn_from_alphabet(out@),
        decreases length - n,
    {
        let k = draw_symbol_index();
        push_symbol(&mut out, k);
        assert(alphabet().contains(alphabet()[k as int]));
        n = n + 1;
    }
    out
}

} // verus!
