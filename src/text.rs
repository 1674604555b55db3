use vstd::prelude::*;

verus! {

/// The largest index of a BIP-32 step, hardened or not.
pub const MAX_STEP_INDEX: u32 = 0x7fff_ffff;

/// One step of a derivation path: a child index and whether it is hardened.
#[derive(Clone, Copy, Debug, PartialEq, Eq, Structural)]
pub struct ChildStep {
    pub index: u32,
    pub hardened: bool,
}

impl ChildStep {
    pub open spec fn wf(self) -> bool {
        self.index <= MAX_STEP_INDEX
    }

    /// The step as BIP-32 numbers it: hardened steps carry the top bit.
    pub open spec fn raw_spec(self) -> u32 {
        if self.hardened {
            (self.index + 0x8000_0000) as u32
        } else {
            self.index
        }
    }

    pub fn raw(&self) -> (r: u32)
        requires
            self.wf(),
        ensures
            r == self.raw_spec(),
    {
        if self.hardened {
            self.index + 0x8000_0000
        } else {
            self.index
        }
    }
}

pub open spec fn path_wf(p: Seq<ChildStep>) -> bool {
    forall|i: int| 0 <= i < p.len() ==> (#[trigger] p[i]).wf()
}

pub open spec fn raw_path(p: Seq<ChildStep>) -> Seq<u32> {
    p.map_values(|s: ChildStep| s.raw_spec())
}

pub open spec fn decimal_digit(d: int) -> char {
    if d == 0 { '0' }
    else if d == 1 { '1' }
    else if d == 2 { '2' }
    else if d == 3 { '3' }
    else if d == 4 { '4' }
    else if d == 5 { '5' }
    else if d == 6 { '6' }
    else if d == 7 { '7' }
    else if d == 8 { '8' }
    else { '9' }
}

pub open spec fn hex_digit_spec(d: int) -> char {
    if d < 10 { decimal_digit(d) }
    else if d == 10 { 'a' }
    else if d == 11 { 'b' }
    else if d == 12 { 'c' }
    else if d == 13 { 'd' }
    else if d == 14 { 'e' }
    else { 'f' }
}

/// The decimal text of `n`, without leading zeros.
pub open spec fn decimal(n: nat) -> Seq<char>
    decreases n,
{
    if n < 10 {
        seq![decimal_digit(n as int)]
    } else {
        decimal(n / 10).push(decimal_digit((n % 10) as int))
    }
}

/// The last `w` hexadecimal digits of `n`, lower case, most significant first.
pub open spec fn hex_width(n: nat, w: nat) -> Seq<char>
    decreases w,
{
    if w == 0 {
        seq![]
    } else {
        hex_width(n / 16, (w - 1) as nat).push(hex_digit_spec((n % 16) as int))
    }
}

/// A fingerprint as eight hexadecimal digits.
pub open spec fn hex8(n: u32) -> Seq<char> {
    hex_width(n as nat, 8)
}

/// `/84'` for a hardened step, `/0` for a plain one.
pub open spec fn step_text(s: ChildStep) -> Seq<char> {
    seq!['/'] + decimal(s.index as nat) + if s.hardened { seq!['\''] } else { seq![] }
}

pub open spec fn path_text_spec(p: Seq<ChildStep>) -> Seq<char>
    decreases p.len(),
{
    if p.len() == 0 {
        seq![]
    } else {
        path_text_spec(p.drop_last()) + step_text(p.last())
    }
}

pub fn hex_digit(d: u32) -> (c: char)
    requires
        d < 16,
    ensures
        c == hex_digit_spec(d as int),
{
    match d {
        0 => '0',
        1 => '1',
        2 => '2',
        3 => '3',
        4 => '4',
        5 => '5',
        6 => '6',
        7 => '7',
        8 => '8',
        9 => '9',
        10 => 'a',
        11 => 'b',
        12 => 'c',
        13 => 'd',
        14 => 'e',
        _ => 'f',
    }
}

pub fn push_decimal(out: &mut Vec<char>, n: u32)
    ensures
        final(out)@ == old(out)@ + decimal(n as nat),
    decreases n,
{
    if n >= 10 {
        push_decimal(out, n / 10);
    }
    out.push(hex_digit(n % 10));
    assert(final(out)@ =~= old(out)@ + decimal(n as nat));
}

pub fn push_hex(out: &mut Vec<char>, n: u32, w: u32)
    ensures
        final(out)@ == old(out)@ + hex_width(n as nat, w as nat),
    decreases w,
{
    if w > 0 {
        push_hex(out, n / 16, w - 1);
        out.push(hex_digit(n % 16));
    }
    assert(final(out)@ =~= old(out)@ + hex_width(n as nat, w as nat));
}

pub fn push_step(out: &mut Vec<char>, s: ChildStep)
    ensures
        final(out)@ == old(out)@ + step_text(s),
{
    out.push('/');
    push_decimal(out, s.index);
    if s.hardened {
        out.push('\'');
    }
    assert(final(out)@ =~= old(out)@ + step_text(s));
}

pub fn push_path(out: &mut Vec<char>, p: &Vec<ChildStep>)
    ensures
        final(out)@ == old(out)@ + path_text_spec(p@),
{
    let ghost start = out@;
    let mut i: usize = 0;
    while i < p.len()
        invariant
            i <= p@.len(),
            out@ == start + path_text_spec(p@.take(i as int)),
        decreases p@.len() - i,
    {
        push_step(out, p[i]);
        assert(p@.take(i + 1).drop_last() =~= p@.take(i as int));
        i = i + 1;
        assert(out@ =~= start + path_text_spec(p@.take(i as int)));
    }
    assert(p@.take(i as int) =~= p@);
}

/// The path as a descriptor writes it, each step led by `/`.
pub fn path_text(p: &Vec<ChildStep>) -> (r: Vec<char>)
    ensures
        r@ == path_text_spec(p@),
{
    let mut out: Vec<char> = Vec::new();
    push_path(&mut out, p);
    assert(out@ =~= path_text_spec(p@));
    out
}

} // verus!
