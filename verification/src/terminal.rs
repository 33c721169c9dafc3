//! ANSI terminal styling of text.
use vstd::prelude::*;

verus! {

/// The sequence that resets terminal styling.
pub open spec fn reset_sequence() -> Seq<char> {
    seq!['\x1B', '[', '0', 'm']
}

/// The escape sequence `ESC [ <code> m`.
pub open spec fn style_sequence(code: Seq<char>) -> Seq<char> {
    seq!['\x1B', '['] + code + seq!['m']
}

/// `value` between the styling sequence with `code` and the reset sequence.
pub open spec fn styled(code: Seq<char>, value: Seq<char>) -> Seq<char> {
    style_sequence(code) + value + reset_sequence()
}

fn styled_text(prefix: &str, value: &str) -> (res: String)
    ensures
        res@ == prefix@ + value@ + reset_sequence(),
{
    let mut res = String::from_str(prefix);
    res.append(value);
    let reset = "\x1B[0m";
    proof {
        reveal_strlit("\x1B[0m");
        assert(reset@ =~= reset_sequence());
    }
    res.append(reset);
    res
}

/// `value` on a blue background.
pub fn blue_background(value: &str) -> (res: String)
    ensures
        res@ == styled(seq!['4', '4'], value@),
{
    proof {
        reveal_strlit("\x1B[44m");
    }
    let res = styled_text("\x1B[44m", value);
    assert(res@ =~= styled(seq!['4', '4'], value@));
    res
}

/// `value` on a red background.
pub fn red_background(value: &str) -> (res: String)
    ensures
        res@ == styled(seq!['4', '1'], value@),
{
    proof {
        reveal_strlit("\x1B[41m");
    }
    let res = styled_text("\x1B[41m", value);
    assert(res@ =~= styled(seq!['4', '1'], value@));
    res
}

/// `value` on a green background.
pub fn green_background(value: &str) -> (res: String)
    ensures
        res@ == styled(seq!['4', '2'], value@),
{
    proof {
        reveal_strlit("\x1B[42m");
    }
    let res = styled_text("\x1B[42m", value);
    assert(res@ =~= styled(seq!['4', '2'], value@));
    res
}

/// `value` on a yellow background.
pub fn yellow_background(value: &str) -> (res: String)
    ensures
        res@ == styled(seq!['4', '3'], value@),
{
    proof {
        reveal_strlit("\x1B[43m");
    }
    let res = styled_text("\x1B[43m", value);
    assert(res@ =~= styled(seq!['4', '3'], value@));
    res
}

/// `value` in green.
pub fn green_text(value: &str) -> (res: String)
    ensures
        res@ == styled(seq!['3', '2'], value@),
{
    proof {
        reveal_strlit("\x1B[32m");
    }
    let res = styled_text("\x1B[32m", value);
    assert(res@ =~= styled(seq!['3', '2'], value@));
    res
}

/// `value` in (bright cyan) blue.
pub fn blue_text(value: &str) -> (res: String)
    ensures
        res@ == styled(seq!['9', '6'], value@),
{
    proof {
        reveal_strlit("\x1B[96m");
    }
    let res = styled_text("\x1B[96m", value);
    assert(res@ =~= styled(seq!['9', '6'], value@));
    res
}

/// `value` in bold bright yellow.
pub fn yellow_text(value: &str) -> (res: String)
    ensures
        res@ == styled(seq!['0', '1', ';', '9', '3'], value@),
{
    proof {
        reveal_strlit("\x1B[01;93m");
    }
    let res = styled_text("\x1B[01;93m", value);
    assert(res@ =~= styled(seq!['0', '1', ';', '9', '3'], value@));
    res
}

} // verus!
