//! The error surface of the cipher engine.
use vstd::assert_seqs_equal;
use vstd::prelude::*;
use vstd::string::StringExecFns;

verus! {

/// Every failure the engine can report.
#[derive(Debug)]
pub enum CipherError {
    /// Strip-padding validation failed: the trailing bytes do not all
    /// hold the declared pad count.  Signals a wrong key or a corrupted
    /// ciphertext.
    DecryptionError(String),
    /// The supplied key material is shorter than the round transform
    /// requires.
    KeyLen(String),
    /// Malformed padding input: empty, or a pad count that exceeds the
    /// buffer length.
    PaddingError(String),
    /// A parallel span failed to complete, or reported out of range, so
    /// no full result could be assembled.
    WorkerFailure(String),
}

impl CipherError {
    /// The message the error carries.
    pub open spec fn spec_message(&self) -> Seq<char> {
        match self {
            CipherError::DecryptionError(s) => s@,
            CipherError::KeyLen(s) => s@,
            CipherError::PaddingError(s) => s@,
            CipherError::WorkerFailure(s) => s@,
        }
    }

    /// The human-readable message the error carries.  This is the
    /// error's presentation surface; the library attaches no terminal
    /// formatting to it.
    pub fn message(&self) -> (s: &String)
        ensures
            s@ == self.spec_message(),
    {
        match self {
            CipherError::DecryptionError(s) => s,
            CipherError::KeyLen(s) => s,
            CipherError::PaddingError(s) => s,
            CipherError::WorkerFailure(s) => s,
        }
    }
}

/// The decimal digit character for `d`.
pub open spec fn spec_digit(d: nat) -> char
    recommends
        d < 10,
{
    if d == 0 {
        '0'
    } else if d == 1 {
        '1'
    } else if d == 2 {
        '2'
    } else if d == 3 {
        '3'
    } else if d == 4 {
        '4'
    } else if d == 5 {
        '5'
    } else if d == 6 {
        '6'
    } else if d == 7 {
        '7'
    } else if d == 8 {
        '8'
    } else {
        '9'
    }
}

/// The decimal representation of `n`, without leading zeros.
pub open spec fn spec_dec_u8(n: u8) -> Seq<char> {
    if n < 10 {
        seq![spec_digit(n as nat)]
    } else if n < 100 {
        seq![spec_digit(n as nat / 10), spec_digit(n as nat % 10)]
    } else {
        seq![
            spec_digit(n as nat / 100),
            spec_digit((n as nat / 10) % 10),
            spec_digit(n as nat % 10),
        ]
    }
}

/// The ANSI 24-bit foreground escape for the color `(r, g, b)`.
pub open spec fn spec_rgb_string(r: u8, g: u8, b: u8) -> Seq<char> {
    seq!['\x1b', '[', '3', '8', ';', '2', ';'] + spec_dec_u8(r) + seq![';'] + spec_dec_u8(g)
        + seq![';'] + spec_dec_u8(b) + seq!['m']
}

fn digit_str(d: u8) -> (s: &'static str)
    requires
        d < 10,
    ensures
        s@ == seq![spec_digit(d as nat)],
{
    proof {
        reveal_strlit("0");
        reveal_strlit("1");
        reveal_strlit("2");
        reveal_strlit("3");
        reveal_strlit("4");
        reveal_strlit("5");
        reveal_strlit("6");
        reveal_strlit("7");
        reveal_strlit("8");
        reveal_strlit("9");
    }
    match d {
        0 => "0",
        1 => "1",
        2 => "2",
        3 => "3",
        4 => "4",
        5 => "5",
        6 => "6",
        7 => "7",
        8 => "8",
        _ => "9",
    }
}

/// `n` written in decimal, without leading zeros.
fn dec_u8(n: u8) -> (s: String)
    ensures
        s@ == spec_dec_u8(n),
{
    if n < 10 {
        String::from_str(digit_str(n))
    } else if n < 100 {
        let mut s = String::from_str(digit_str(n / 10));
        s.append(digit_str(n % 10));
        s
    } else {
        let mut s = String::from_str(digit_str(n / 100));
        s.append(digit_str((n / 10) % 10));
        s.append(digit_str(n % 10));
        s
    }
}

/// The ANSI escape sequence that switches the terminal foreground to the
/// 24-bit color `(r, g, b)`.
pub fn rgb_string(r: u8, g: u8, b: u8) -> (s: String)
    ensures
        s@ == spec_rgb_string(r, g, b),
{
    proof {
        reveal_strlit("\x1b[38;2;");
        reveal_strlit(";");
        reveal_strlit("m");
    }
    let mut s = String::from_str("\x1b[38;2;");
    let rd = dec_u8(r);
    s.append(rd.as_str());
    s.append(";");
    let gd = dec_u8(g);
    s.append(gd.as_str());
    s.append(";");
    let bd = dec_u8(b);
    s.append(bd.as_str());
    s.append("m");
    proof {
        assert_seqs_equal!(s@ == spec_rgb_string(r, g, b));
    }
    s
}

pub fn msg_empty_padding() -> String {
    String::from_str("received empty padding")
}

pub fn msg_corrupted() -> String {
    String::from_str("corrupted ciphertext")
}

pub fn msg_decryption_failed() -> String {
    String::from_str("decryption failed: bad padding")
}

pub fn msg_key_too_short() -> String {
    String::from_str("key material must not be empty")
}

pub fn msg_worker_failure() -> String {
    String::from_str("a parallel span failed to report a result")
}

} // verus!
