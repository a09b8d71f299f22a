//! Names for files that nobody named.

use crate::random::{gen_range, thread_rng};
use vstd::prelude::*;
use vstd::string::*;

verus! {

/// The text of the capital letter with the given code.
pub open spec fn letter(code: u8) -> Seq<char> {
    seq![code as char]
}

/// The codes of the letters that a generated name is made of: the capital
/// letters from A to Y.
pub open spec fn is_name_letter(code: int) -> bool {
    65 <= code < 90
}

/// A generated name: `birb_`, four capital letters, a dot and the
/// extension.
pub open spec fn filename_text(a: u8, b: u8, c: u8, d: u8, ext: Seq<char>) -> Seq<char> {
    "birb_"@ + letter(a) + letter(b) + letter(c) + letter(d) + "."@ + ext
}

/// The text of one capital letter from A to Y.
fn letter_str(code: u8) -> (s: &'static str)
    requires
        is_name_letter(code as int),
    ensures
        s@ == letter(code),
{
    let alphabet = "ABCDEFGHIJKLMNOPQRSTUVWXY";
    proof {
        reveal_strlit("ABCDEFGHIJKLMNOPQRSTUVWXY");
    }
    let at = (code - 65) as usize;
    let s = alphabet.substring_ascii(at, at + 1);
    assert(s@ =~= letter(code));
    s
}

/// The name that four given letters and an extension make.
pub fn filename_from(a: u8, b: u8, c: u8, d: u8, ext: &str) -> (name: String)
    requires
        is_name_letter(a as int),
        is_name_letter(b as int),
        is_name_letter(c as int),
        is_name_letter(d as int),
    ensures
        name@ == filename_text(a, b, c, d, ext@),
{
    let mut name = String::new();
    name.append("birb_");
    name.append(letter_str(a));
    name.append(letter_str(b));
    name.append(letter_str(c));
    name.append(letter_str(d));
    name.append(".");
    name.append(ext);
    assert(name@ =~= filename_text(a, b, c, d, ext@));
    name
}

/// A name with four letters drawn by chance, for a file of the given
/// extension.
pub fn gen_filename(ext: &str) -> (name: String)
    ensures
        exists|a: u8, b: u8, c: u8, d: u8|
            is_name_letter(a as int) && is_name_letter(b as int) && is_name_letter(c as int)
                && is_name_letter(d as int) && name@ == #[trigger] filename_text(a, b, c, d, ext@),
{
    let mut rng = thread_rng();
    let a = gen_range(&mut rng, 65, 90) as u8;
    let b = gen_range(&mut rng, 65, 90) as u8;
    let c = gen_range(&mut rng, 65, 90) as u8;
    let d = gen_range(&mut rng, 65, 90) as u8;
    filename_from(a, b, c, d, ext)
}

} // verus!
