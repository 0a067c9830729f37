//! Elevation: what is handed to Windows when a process is started back at
//! normal integrity.
//!
//! Shaman's release build runs elevated so admin terminals need no extra
//! prompt. That inverts the usual problem: *ordinary* terminals then have to
//! be pushed back to normal integrity, or every tab would silently be admin.
//! What works is to duplicate the desktop shell's token and launch with
//! `CreateProcessWithTokenW`; those calls are the application's. The command
//! line and the wide strings they take are built here.
use vstd::prelude::*;

use crate::profiles::texts;
use crate::text::{chars_of, push_char, push_str};

verus! {

/// The UTF-16 code units of one character: itself below U+10000, a
/// surrogate pair above.
pub open spec fn utf16_units(c: char) -> Seq<u16> {
    let v = c as u32;
    if v < 0x10000 {
        seq![v as u16]
    } else {
        let u = (v - 0x10000) as u32;
        seq![(0xD800 + u / 0x400) as u16, (0xDC00 + u % 0x400) as u16]
    }
}

/// `str::encode_utf16`: the UTF-16 code units of a string.
pub open spec fn utf16(s: Seq<char>) -> Seq<u16>
    decreases s.len(),
{
    if s.len() == 0 {
        Seq::empty()
    } else {
        utf16(s.drop_last()) + utf16_units(s.last())
    }
}

/// A string as the NUL-terminated UTF-16 the Win32 wide APIs take.
pub fn wide(s: &str) -> (r: Vec<u16>)
    ensures
        r@ == utf16(s@).push(0),
{
    let chars = chars_of(s);
    let mut out: Vec<u16> = Vec::new();
    let mut i: usize = 0;
    while i < chars.len()
        invariant
            i <= chars@.len(),
            chars@ == s@,
            out@ == utf16(s@.take(i as int)),
        decreases chars@.len() - i,
    {
        let c = chars[i];
        let v = c as u32;
        proof {
            assert(s@.take(i + 1).drop_last() =~= s@.take(i as int));
            assert(s@.take(i + 1).last() == c);
        }
        if v < 0x10000 {
            out.push(v as u16);
        } else {
            assert(v <= 0x10FFFF) by {
                vstd::utf8::char_is_scalar(c);
            }
            let u = v - 0x10000;
            out.push((0xD800 + u / 0x400) as u16);
            out.push((0xDC00 + u % 0x400) as u16);
        }
        i = i + 1;
        assert(out@ =~= utf16(s@.take(i as int)));
    }
    assert(s@.take(i as int) =~= s@);
    out.push(0);
    out
}

/// `"s"`.
pub open spec fn quoted(s: Seq<char>) -> Seq<char> {
    seq!['"'] + s + seq!['"']
}

/// Each argument quoted, each after a space.
pub open spec fn quoted_args(args: Seq<Seq<char>>) -> Seq<char>
    decreases args.len(),
{
    if args.len() == 0 {
        Seq::empty()
    } else {
        quoted_args(args.drop_last()) + seq![' '] + quoted(args.last())
    }
}

/// The command line a process is started with: the program path quoted, in
/// case it contains spaces, then each argument quoted.
pub fn command_line(exe: &str, args: &Vec<String>) -> (r: String)
    ensures
        r@ == quoted(exe@) + quoted_args(texts(args@)),
{
    let mut line = String::new();
    push_char(&mut line, '"');
    push_str(&mut line, exe);
    push_char(&mut line, '"');
    let mut i: usize = 0;
    while i < args.len()
        invariant
            i <= args@.len(),
            line@ == quoted(exe@) + quoted_args(texts(args@.take(i as int))),
        decreases args@.len() - i,
    {
        let ghost before = line@;
        push_char(&mut line, ' ');
        push_char(&mut line, '"');
        push_str(&mut line, args[i].as_str());
        push_char(&mut line, '"');
        proof {
            let t = texts(args@.take(i + 1));
            assert(t.drop_last() =~= texts(args@.take(i as int)));
            assert(t.last() == args@[i as int]@);
            assert(line@ =~= before + seq![' '] + quoted(args@[i as int]@));
        }
        i = i + 1;
    }
    assert(args@.take(i as int) =~= args@);
    line
}

} // verus!
