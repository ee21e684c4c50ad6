//! Text rendering of list values and of whole lists.
use vstd::prelude::*;

verus! {

/// The decimal digit character for `d`, which is below ten.
pub open spec fn digit_char(d: nat) -> char {
    if d == 0 { '0' }
    else if d == 1 { '1' }
    else if d == 2 { '2' }
    else if d == 3 { '3' }
    else if d == 4 { '4' }
    else if d == 5 { '5' }
    else if d == 6 { '6' }
    else if d == 7 { '7' }
    else if d == 8 { '8' }
    else { '9' }
}

/// The decimal digits of `n`, most significant first, without leading zeros.
pub open spec fn decimal_digits(n: nat) -> Seq<char>
    decreases n,
{
    if n < 10 {
        seq![digit_char(n)]
    } else {
        decimal_digits(n / 10).push(digit_char(n % 10))
    }
}

/// The decimal text of the integer `n`, with a leading `-` when negative.
pub open spec fn decimal(n: int) -> Seq<char> {
    if n < 0 {
        seq!['-'] + decimal_digits((-n) as nat)
    } else {
        decimal_digits(n as nat)
    }
}

/// The parts joined with `" -> "` between neighbours.
pub open spec fn joined(parts: Seq<Seq<char>>) -> Seq<char>
    decreases parts.len(),
{
    if parts.len() == 0 {
        Seq::empty()
    } else if parts.len() == 1 {
        parts[0]
    } else {
        joined(parts.drop_last()) + seq![' ', '-', '>', ' '] + parts.last()
    }
}

/// A value that has a textual form.
pub trait Render {
    /// The text of this value.
    spec fn rendered(&self) -> Seq<char>;

    /// Builds the text of this value.
    fn render(&self) -> (r: String)
        ensures
            r@ == self.rendered(),
    ;
}

/// The text of a list holding `values`: `"(v1 -> v2 -> ... -> vk)"`, or `"()"`.
pub open spec fn display_of<T: Render>(values: Seq<T>) -> Seq<char> {
    seq!['('] + joined(values.map_values(|v: T| v.rendered())) + seq![')']
}

/// The text of an empty list is `"()"`.
pub proof fn lemma_display_empty<T: Render>()
    ensures
        display_of(Seq::<T>::empty()) == seq!['(', ')'],
{
    let parts = Seq::<T>::empty().map_values(|v: T| v.rendered());
    assert(parts.len() == 0);
    assert(display_of(Seq::<T>::empty()) =~= seq!['(', ')']);
}

/// Appends `part` behind `" -> "` unless it is the first, as `joined` does.
pub(crate) fn append_part(s: &mut String, part: &str, first: bool, Ghost(done): Ghost<Seq<Seq<char>>>)
    requires
        old(s)@ == seq!['('] + joined(done),
        first == (done.len() == 0),
    ensures
        final(s)@ == seq!['('] + joined(done.push(part@)),
{
    proof {
        reveal_strlit(" -> ");
        assert(done.push(part@).drop_last() =~= done);
    }
    if !first {
        s.append(" -> ");
    }
    s.append(part);
    proof {
        if done.len() == 0 {
            assert(joined(done.push(part@)) == part@);
        }
    }
    assert(final(s)@ =~= seq!['('] + joined(done.push(part@)));
}

/// The one-character text of the digit `d`.
fn digit_str(d: u64) -> (r: &'static str)
    requires
        d < 10,
    ensures
        r@ == seq![digit_char(d as nat)],
{
    proof {
        reveal_strlit("0");
        reveal_strlit("1");
        reveal_strlit("2");
        reveal_strlit("3");
        reveal_strlit("4");
        reveal_strlit("5");
        reveal_strlit("6");
        reveal_strlit("7");
        reveal_strlit("8");
        reveal_strlit("9");
    }
    match d {
        0 => "0",
        1 => "1",
        2 => "2",
        3 => "3",
        4 => "4",
        5 => "5",
        6 => "6",
        7 => "7",
        8 => "8",
        _ => "9",
    }
}

/// Appends the decimal digits of `n` to `s`.
fn append_digits(s: &mut String, n: u64)
    ensures
        final(s)@ == old(s)@ + decimal_digits(n as nat),
    decreases n,
{
    if n >= 10 {
        append_digits(s, n / 10);
    }
    s.append(digit_str(n % 10));
    assert(final(s)@ =~= old(s)@ + decimal_digits(n as nat));
}

/// The decimal text of an unsigned value.
fn unsigned_text(n: u64) -> (r: String)
    ensures
        r@ == decimal(n as int),
{
    let mut s = String::new();
    append_digits(&mut s, n);
    assert(s@ =~= decimal(n as int));
    s
}

/// The decimal text of a signed value.
fn signed_text(n: i64) -> (r: String)
    ensures
        r@ == decimal(n as int),
{
    let mut s = String::new();
    if n < 0 {
        proof {
            reveal_strlit("-");
        }
        s.append("-");
        let magnitude: u64 = (0i128 - n as i128) as u64;
        append_digits(&mut s, magnitude);
    } else {
        append_digits(&mut s, n as u64);
    }
    assert(s@ =~= decimal(n as int));
    s
}

impl Render for i32 {
    open spec fn rendered(&self) -> Seq<char> {
        decimal(*self as int)
    }

    fn render(&self) -> (r: String) {
        signed_text(*self as i64)
    }
}

impl Render for i64 {
    open spec fn rendered(&self) -> Seq<char> {
        decimal(*self as int)
    }

    fn render(&self) -> (r: String) {
        signed_text(*self)
    }
}

impl Render for u32 {
    open spec fn rendered(&self) -> Seq<char> {
        decimal(*self as int)
    }

    fn render(&self) -> (r: String) {
        unsigned_text(*self as u64)
    }
}

impl Render for u64 {
    open spec fn rendered(&self) -> Seq<char> {
        decimal(*self as int)
    }

    fn render(&self) -> (r: String) {
        unsigned_text(*self)
    }
}

impl Render for usize {
    open spec fn rendered(&self) -> Seq<char> {
        decimal(*self as int)
    }

    fn render(&self) -> (r: String) {
        unsigned_text(*self as u64)
    }
}

} // verus!
