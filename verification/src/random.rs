//! Random passwords.

use vstd::prelude::*;

verus! {

/// How many characters a password has.
pub const PASSWORD_LEN: usize = 30;

/// The characters that a password from custom characters is made of.
pub const CHARSET: &'static str =
    "ABCDEFGHIJKLMNOPQRSTUVWXYZabcdefghijklmnopqrstuvwxyz0123456789)(*&^%$#@!~";

/// The least number on the die.
pub const DIE_LOW: i32 = 1;

/// The number above the greatest on the die.
pub const DIE_HIGH: i32 = 10;

/// The throw that ends a run of throws.
pub const LAST_THROW: i32 = 9;

/// An ASCII letter or digit.
pub open spec fn is_alphanumeric(c: char) -> bool {
    let code = c as u32;
    ||| 0x30 <= code <= 0x39
    ||| 0x41 <= code <= 0x5a
    ||| 0x61 <= code <= 0x7a
}

/// `Rng::gen_range` on `rand::thread_rng()` with the range from zero up
/// to, and not including, `bound`: some index in that range. It panics on
/// an empty range, which the bound on `bound` excludes.
#[verifier::external_body]
fn random_index(bound: usize) -> (index: usize)
    requires
        bound > 0,
    ensures
        index < bound,
{
    rand::Rng::gen_range(&mut rand::thread_rng(), 0..bound)
}

/// `Rng::sample` of `rand_distr::Alphanumeric` on `rand::thread_rng()`,
/// as a character: some ASCII letter or digit.
#[verifier::external_body]
fn random_alphanumeric() -> (c: char)
    ensures
        is_alphanumeric(c),
{
    char::from(rand::Rng::sample::<u8, _>(&mut rand::thread_rng(), rand_distr::Alphanumeric))
}

/// `Distribution::sample` of `rand::distributions::Uniform` over the range
/// from `low` up to, and not including, `high`, on `rand::thread_rng()`:
/// some number in that range. The distribution cannot be made for an empty
/// range, which the bound on `low` excludes.
#[verifier::external_body]
fn random_between(low: i32, high: i32) -> (number: i32)
    requires
        low < high,
    ensures
        low <= number < high,
{
    rand::distributions::Distribution::sample(
        &rand::distributions::Uniform::from(low..high),
        &mut rand::thread_rng(),
    )
}

/// `String::push`: appends one character.
#[verifier::external_body]
fn push_char(text: &mut String, c: char)
    ensures
        final(text)@ == old(text)@.push(c),
{
    text.push(c)
}

/// The characters of `charset` at the places `indices`, in that order.
pub open spec fn chosen(charset: Seq<char>, indices: Seq<usize>) -> Seq<char> {
    Seq::new(indices.len(), |i: int| charset[indices[i] as int])
}

/// The text made of `chars`.
pub fn password_from_chars(chars: &Vec<char>) -> (password: String)
    ensures
        password@ == chars@,
{
    let mut password = String::new();
    let mut made: usize = 0;
    while made < chars.len()
        invariant
            made <= chars@.len(),
            password@ == chars@.take(made as int),
        decreases chars@.len() - made,
    {
        push_char(&mut password, chars[made]);
        proof {
            assert(chars@.take(made as int).push(chars@[made as int]) =~= chars@.take(made + 1));
        }
        made += 1;
    }
    proof {
        assert(chars@.take(chars@.len() as int) =~= chars@);
    }
    password
}

/// The password that the choices `indices` make from `charset`: for each
/// index in turn, the character of `charset` at that place.
pub fn password_from_indices(charset: &str, indices: &Vec<usize>) -> (password: String)
    requires
        forall|i: int| 0 <= i < indices@.len() ==> #[trigger] indices@[i] < charset@.len(),
    ensures
        password@ == chosen(charset@, indices@),
{
    let mut chars: Vec<char> = Vec::new();
    let mut made: usize = 0;
    while made < indices.len()
        invariant
            made <= indices@.len(),
            forall|i: int| 0 <= i < indices@.len() ==> #[trigger] indices@[i] < charset@.len(),
            chars@ == chosen(charset@, indices@.take(made as int)),
        decreases indices@.len() - made,
    {
        let c = charset.get_char(indices[made]);
        chars.push(c);
        proof {
            assert(chars@ =~= chosen(charset@, indices@.take(made + 1)));
        }
        made += 1;
    }
    proof {
        assert(indices@.take(indices@.len() as int) =~= indices@);
    }
    password_from_chars(&chars)
}

/// A password of `len` characters, each drawn at random from `charset`:
/// `len` places in `charset` are drawn, and the password is made from them.
pub fn gen_password_from(charset: &str, len: usize) -> (password: String)
    requires
        charset@.len() > 0,
    ensures
        password@.len() == len,
        forall|i: int| 0 <= i < password@.len() ==> charset@.contains(#[trigger] password@[i]),
{
    let choices = charset.unicode_len();
    let mut indices: Vec<usize> = Vec::new();
    while indices.len() < len
        invariant
            indices@.len() <= len,
            choices == charset@.len() > 0,
            forall|i: int| 0 <= i < indices@.len() ==> #[trigger] indices@[i] < choices,
        decreases len - indices@.len(),
    {
        indices.push(random_index(choices));
    }
    let password = password_from_indices(charset, &indices);
    proof {
        assert forall|i: int| 0 <= i < password@.len() implies charset@.contains(
            #[trigger] password@[i],
        ) by {
            assert(password@[i] == charset@[indices@[i] as int]);
        }
    }
    password
}

/// A password of `PASSWORD_LEN` characters, each drawn at random from
/// `CHARSET`.
pub fn gen_password_from_custom_chars() -> (password: String)
    ensures
        password@.len() == PASSWORD_LEN,
        forall|i: int| 0 <= i < password@.len() ==> CHARSET@.contains(#[trigger] password@[i]),
{
    proof {
        reveal_strlit(
            "ABCDEFGHIJKLMNOPQRSTUVWXYZabcdefghijklmnopqrstuvwxyz0123456789)(*&^%$#@!~",
        );
    }
    gen_password_from(CHARSET, PASSWORD_LEN)
}

/// A password of `PASSWORD_LEN` characters, each an ASCII letter or digit
/// drawn at random: the characters are drawn, and the password is made of
/// them.
pub fn generate_rand_password_from_chars() -> (password: String)
    ensures
        password@.len() == PASSWORD_LEN,
        forall|i: int| 0 <= i < password@.len() ==> is_alphanumeric(#[trigger] password@[i]),
{
    let mut chars: Vec<char> = Vec::new();
    while chars.len() < PASSWORD_LEN
        invariant
            chars@.len() <= PASSWORD_LEN,
            forall|i: int| 0 <= i < chars@.len() ==> is_alphanumeric(#[trigger] chars@[i]),
        decreases PASSWORD_LEN - chars@.len(),
    {
        chars.push(random_alphanumeric());
    }
    password_from_chars(&chars)
}

/// The throws that count among `draws`: all up to the first `LAST_THROW`,
/// and that one; all of them where it is not among them.
pub open spec fn up_to_last(draws: Seq<i32>) -> Seq<i32>
    decreases draws.len(),
{
    if draws.len() == 0 {
        draws
    } else if draws.first() == LAST_THROW {
        seq![draws.first()]
    } else {
        seq![draws.first()] + up_to_last(draws.drop_first())
    }
}

/// The throws that count are the first of the draws; none of them but the
/// last is `LAST_THROW`, and the last one is, unless all draws count.
pub proof fn lemma_up_to_last(draws: Seq<i32>)
    ensures
        up_to_last(draws).len() <= draws.len(),
        up_to_last(draws) == draws.take(up_to_last(draws).len() as int),
        draws.len() > 0 ==> up_to_last(draws).len() > 0,
        forall|i: int|
            0 <= i < up_to_last(draws).len() - 1 ==> #[trigger] up_to_last(draws)[i] != LAST_THROW,
        up_to_last(draws).len() < draws.len() ==> up_to_last(draws).last() == LAST_THROW,
    decreases draws.len(),
{
    if draws.len() > 0 {
        if draws.first() == LAST_THROW {
            assert(seq![draws.first()] =~= draws.take(1));
        } else {
            let rest = draws.drop_first();
            lemma_up_to_last(rest);
            let cut = up_to_last(rest);
            let whole = up_to_last(draws);
            assert(whole =~= draws.take(whole.len() as int)) by {
                assert forall|i: int| 0 <= i < whole.len() implies whole[i] == draws[i] by {
                    if i > 0 {
                        assert(whole[i] == cut[i - 1]);
                        assert(cut[i - 1] == rest.take(cut.len() as int)[i - 1]);
                        assert(rest[i - 1] == draws[i]);
                    }
                }
            }
            assert forall|i: int| 0 <= i < whole.len() - 1 implies #[trigger] whole[i]
                != LAST_THROW by {
                if i > 0 {
                    assert(whole[i] == cut[i - 1]);
                }
            }
            if whole.len() < draws.len() {
                assert(whole.last() == cut.last());
            }
        }
    }
}

/// Cuts a run of draws after the first `LAST_THROW`.
pub fn throws_from(draws: &Vec<i32>) -> (throws: Vec<i32>)
    ensures
        throws@ == up_to_last(draws@),
{
    let mut throws: Vec<i32> = Vec::new();
    let mut i: usize = 0;
    let mut done = false;
    proof {
        assert(draws@.skip(0) =~= draws@);
        assert(throws@ + up_to_last(draws@) =~= up_to_last(draws@));
    }
    while !done && i < draws.len()
        invariant
            i <= draws@.len(),
            !done ==> up_to_last(draws@) == throws@ + up_to_last(draws@.skip(i as int)),
            done ==> throws@ == up_to_last(draws@),
        decreases draws@.len() - i,
    {
        let throw = draws[i];
        proof {
            let rest = draws@.skip(i as int);
            assert(rest.first() == throw);
            assert(rest.drop_first() =~= draws@.skip(i + 1));
            assert(throws@ + (seq![throw] + up_to_last(draws@.skip(i + 1))) =~= throws@.push(throw)
                + up_to_last(draws@.skip(i + 1)));
            assert(throws@ + seq![throw] =~= throws@.push(throw));
        }
        throws.push(throw);
        done = throw == LAST_THROW;
        i += 1;
    }
    proof {
        if !done {
            assert(up_to_last(draws@.skip(i as int)).len() == 0);
            assert(throws@ + up_to_last(draws@.skip(i as int)) =~= throws@);
        }
    }
    throws
}

/// Throws a die with the numbers from `DIE_LOW` up to, and not including,
/// `DIE_HIGH`, until it shows `LAST_THROW`, and returns the throws in order.
///
/// Every throw is a number on the die and only the last one is
/// `LAST_THROW`. The run also ends, without it, when the throws no longer
/// fit a vector.
pub fn generate_rand_num_range() -> (throws: Vec<i32>)
    ensures
        throws@.len() > 0,
        forall|i: int| 0 <= i < throws@.len() ==> DIE_LOW <= #[trigger] throws@[i] < DIE_HIGH,
        forall|i: int| 0 <= i < throws@.len() - 1 ==> #[trigger] throws@[i] != LAST_THROW,
        throws@.len() < usize::MAX ==> throws@.last() == LAST_THROW,
{
    let mut draws: Vec<i32> = Vec::new();
    let mut done = false;
    while !done && draws.len() < usize::MAX
        invariant
            forall|i: int| 0 <= i < draws@.len() ==> DIE_LOW <= #[trigger] draws@[i] < DIE_HIGH,
            done ==> draws@.len() > 0 && draws@.last() == LAST_THROW,
        decreases usize::MAX - draws@.len(),
    {
        let draw = random_between(DIE_LOW, DIE_HIGH);
        draws.push(draw);
        done = draw == LAST_THROW;
    }
    let throws = throws_from(&draws);
    proof {
        lemma_up_to_last(draws@);
        assert forall|i: int| 0 <= i < throws@.len() implies DIE_LOW <= #[trigger] throws@[i]
            < DIE_HIGH by {
            assert(throws@[i] == draws@[i]);
        }
        if throws@.len() == draws@.len() {
            assert(throws@ =~= draws@);
        }
    }
    throws
}

} // verus!
