use vstd::prelude::*;

verus! {

use crate::messages::{ScanMessage, Event};
use crate::util::{str_to_chars, chars_to_string};

/// The character for one decimal digit.
pub open spec fn digit_char(d: nat) -> char {
    if d == 0 {
        '0'
    } else if d == 1 {
        '1'
    } else if d == 2 {
        '2'
    } else if d == 3 {
        '3'
    } else if d == 4 {
        '4'
    } else if d == 5 {
        '5'
    } else if d == 6 {
        '6'
    } else if d == 7 {
        '7'
    } else if d == 8 {
        '8'
    } else {
        '9'
    }
}

/// The decimal notation of a natural number, most significant digit first.
pub open spec fn dec_chars(n: nat) -> Seq<char>
    decreases n,
{
    if n < 10 {
        seq![digit_char(n)]
    } else {
        dec_chars(n / 10).push(digit_char(n % 10))
    }
}

/// The character for one hexadecimal digit, lowercase.
pub open spec fn hex_char(d: nat) -> char {
    if d < 10 {
        digit_char(d)
    } else if d == 10 {
        'a'
    } else if d == 11 {
        'b'
    } else if d == 12 {
        'c'
    } else if d == 13 {
        'd'
    } else if d == 14 {
        'e'
    } else {
        'f'
    }
}

/// How one character appears inside a JSON string: quotes and backslashes are
/// escaped, the usual control characters get their short escapes, any other
/// control character a `\u00..` escape, and everything else stands as itself.
pub open spec fn esc_char(c: char) -> Seq<char> {
    if c == '"' {
        seq!['\\', '"']
    } else if c == '\\' {
        seq!['\\', '\\']
    } else if c == '\u{8}' {
        seq!['\\', 'b']
    } else if c == '\u{c}' {
        seq!['\\', 'f']
    } else if c == '\n' {
        seq!['\\', 'n']
    } else if c == '\r' {
        seq!['\\', 'r']
    } else if c == '\t' {
        seq!['\\', 't']
    } else if (c as u32) < 32 {
        seq!['\\', 'u', '0', '0', hex_char((c as u32 / 16) as nat), hex_char((c as u32 % 16) as nat)]
    } else {
        seq![c]
    }
}

/// A character sequence with every character escaped for JSON.
pub open spec fn json_escape(s: Seq<char>) -> Seq<char>
    decreases s.len(),
{
    if s.len() == 0 {
        Seq::empty()
    } else {
        json_escape(s.drop_last()) + esc_char(s.last())
    }
}

/// A JSON string: the escaped characters between double quotes.
pub open spec fn quoted(s: Seq<char>) -> Seq<char> {
    seq!['"'] + json_escape(s) + seq!['"']
}

/// JSON notation of a boolean.
pub open spec fn bool_chars(b: bool) -> Seq<char> {
    if b {
        "true"@
    } else {
        "false"@
    }
}

/// JSON notation of an optional number: `null` when absent.
pub open spec fn opt_chars(m: Option<u64>) -> Seq<char> {
    match m {
        Option::None => "null"@,
        Option::Some(v) => dec_chars(v as nat),
    }
}

/// The wire form of one event: a single JSON object with a `type`
/// discriminator, exactly one per line.
pub open spec fn encode_event(e: Event) -> Seq<char> {
    match e {
        Event::Entry(en) => "{\"type\":\"entry\",\"path\":"@ + quoted(en.path) + ",\"name\":"@
            + quoted(en.name) + ",\"size\":"@ + dec_chars(en.size as nat) + ",\"is_dir\":"@
            + bool_chars(en.is_dir) + ",\"is_symlink\":"@ + bool_chars(en.is_symlink)
            + ",\"modified\":"@ + opt_chars(en.modified) + ",\"item_count\":"@ + dec_chars(
            en.item_count as nat,
        ) + ",\"file_type\":"@ + quoted(en.file_type) + "}"@,
        Event::Complete { path, total_size } => "{\"type\":\"complete\",\"path\":"@ + quoted(path)
            + ",\"total_size\":"@ + dec_chars(total_size as nat) + "}"@,
        Event::Trouble { path, message } => "{\"type\":\"error\",\"path\":"@ + quoted(path)
            + ",\"message\":"@ + quoted(message) + "}"@,
        Event::Status { status } => "{\"type\":\"status\",\"status\":"@ + quoted(status) + "}"@,
        Event::Done { total_size, total_items } => "{\"type\":\"done\",\"total_size\":"@
            + dec_chars(total_size as nat) + ",\"total_items\":"@ + dec_chars(total_items as nat)
            + "}"@,
    }
}

/// One decimal digit below ten, as a character.
fn digit(d: u64) -> (c: char)
    requires
        d < 10,
    ensures
        c == digit_char(d as nat),
{
    match d {
        0 => '0',
        1 => '1',
        2 => '2',
        3 => '3',
        4 => '4',
        5 => '5',
        6 => '6',
        7 => '7',
        8 => '8',
        _ => '9',
    }
}

/// Append the decimal notation of `n`.
fn push_u64(out: &mut Vec<char>, n: u64)
    ensures
        final(out)@ == old(out)@ + dec_chars(n as nat),
    decreases n,
{
    if n < 10 {
        out.push(digit(n));
        proof {
            assert(out@ =~= old(out)@ + dec_chars(n as nat));
        }
    } else {
        push_u64(out, n / 10);
        out.push(digit(n % 10));
        proof {
            assert(out@ =~= old(out)@ + dec_chars(n as nat));
        }
    }
}

/// Append the characters of a string slice, unescaped.
fn push_str_chars(out: &mut Vec<char>, s: &str)
    ensures
        final(out)@ == old(out)@ + s@,
{
    let cs = str_to_chars(s);
    let mut i: usize = 0;
    while i < cs.len()
        invariant
            i <= cs.len(),
            cs@ == s@,
            out@ == old(out)@ + cs@.subrange(0, i as int),
        decreases cs.len() - i,
    {
        out.push(cs[i]);
        proof {
            assert(old(out)@ + cs@.subrange(0, i as int) + seq![cs@[i as int]] =~= old(out)@
                + cs@.subrange(0, i + 1));
        }
        i += 1;
    }
    proof {
        assert(cs@.subrange(0, cs@.len() as int) =~= s@);
    }
}

/// Append the escape of one character.
fn push_escaped_char(out: &mut Vec<char>, c: char)
    ensures
        final(out)@ == old(out)@ + esc_char(c),
{
    if c == '"' {
        out.push('\\');
        out.push('"');
    } else if c == '\\' {
        out.push('\\');
        out.push('\\');
    } else if c == '\u{8}' {
        out.push('\\');
        out.push('b');
    } else if c == '\u{c}' {
        out.push('\\');
        out.push('f');
    } else if c == '\n' {
        out.push('\\');
        out.push('n');
    } else if c == '\r' {
        out.push('\\');
        out.push('r');
    } else if c == '\t' {
        out.push('\\');
        out.push('t');
    } else if (c as u32) < 32 {
        let v = c as u32;
        out.push('\\');
        out.push('u');
        out.push('0');
        out.push('0');
        out.push(if v / 16 == 0 {
            '0'
        } else {
            '1'
        });
        let lo = v % 16;
        out.push(
            if lo < 10 {
                digit(lo as u64)
            } else if lo == 10 {
                'a'
            } else if lo == 11 {
                'b'
            } else if lo == 12 {
                'c'
            } else if lo == 13 {
                'd'
            } else if lo == 14 {
                'e'
            } else {
                'f'
            },
        );
    } else {
        out.push(c);
    }
    proof {
        assert(out@ =~= old(out)@ + esc_char(c));
    }
}

/// Append a JSON string: `s` escaped, between double quotes.
fn push_quoted(out: &mut Vec<char>, s: &str)
    ensures
        final(out)@ == old(out)@ + quoted(s@),
{
    out.push('"');
    let cs = str_to_chars(s);
    let mut i: usize = 0;
    while i < cs.len()
        invariant
            i <= cs.len(),
            cs@ == s@,
            out@ == old(out)@ + seq!['"'] + json_escape(cs@.subrange(0, i as int)),
        decreases cs.len() - i,
    {
        push_escaped_char(out, cs[i]);
        proof {
            let pre = cs@.subrange(0, i + 1);
            assert(pre.drop_last() =~= cs@.subrange(0, i as int));
            assert(pre.last() == cs@[i as int]);
        }
        i += 1;
    }
    out.push('"');
    proof {
        assert(cs@.subrange(0, cs@.len() as int) =~= s@);
        assert(out@ =~= old(out)@ + quoted(s@));
    }
}

/// Append a boolean.
fn push_bool(out: &mut Vec<char>, b: bool)
    ensures
        final(out)@ == old(out)@ + bool_chars(b),
{
    if b {
        push_str_chars(out, "true");
    } else {
        push_str_chars(out, "false");
    }
}

/// Encode one message as a single JSON object, exactly as
/// [`encode_event`] states.
pub fn encode_message(m: &ScanMessage) -> (s: String)
    ensures
        s@ == encode_event(m@),
{
    let mut out: Vec<char> = Vec::new();
    match m {
        ScanMessage::Entry(en) => {
            push_str_chars(&mut out, "{\"type\":\"entry\",\"path\":");
            push_quoted(&mut out, en.path.as_str());
            push_str_chars(&mut out, ",\"name\":");
            push_quoted(&mut out, en.name.as_str());
            push_str_chars(&mut out, ",\"size\":");
            push_u64(&mut out, en.size);
            push_str_chars(&mut out, ",\"is_dir\":");
            push_bool(&mut out, en.is_dir);
            push_str_chars(&mut out, ",\"is_symlink\":");
            push_bool(&mut out, en.is_symlink);
            push_str_chars(&mut out, ",\"modified\":");
            match &en.modified {
                Option::Some(v) => push_u64(&mut out, *v),
                Option::None => push_str_chars(&mut out, "null"),
            }
            push_str_chars(&mut out, ",\"item_count\":");
            push_u64(&mut out, en.item_count);
            push_str_chars(&mut out, ",\"file_type\":");
            push_quoted(&mut out, en.file_type.as_str());
            push_str_chars(&mut out, "}");
            proof {
                assert(out@ =~= encode_event(m@));
            }
        },
        ScanMessage::FolderComplete { path, total_size } => {
            push_str_chars(&mut out, "{\"type\":\"complete\",\"path\":");
            push_quoted(&mut out, path.as_str());
            push_str_chars(&mut out, ",\"total_size\":");
            push_u64(&mut out, *total_size);
            push_str_chars(&mut out, "}");
            proof {
                assert(out@ =~= encode_event(m@));
            }
        },
        ScanMessage::Error { path, message } => {
            push_str_chars(&mut out, "{\"type\":\"error\",\"path\":");
            push_quoted(&mut out, path.as_str());
            push_str_chars(&mut out, ",\"message\":");
            push_quoted(&mut out, message.as_str());
            push_str_chars(&mut out, "}");
            proof {
                assert(out@ =~= encode_event(m@));
            }
        },
        ScanMessage::Status { status } => {
            push_str_chars(&mut out, "{\"type\":\"status\",\"status\":");
            push_quoted(&mut out, status.as_str());
            push_str_chars(&mut out, "}");
            proof {
                assert(out@ =~= encode_event(m@));
            }
        },
        ScanMessage::Done { total_size, total_items } => {
            push_str_chars(&mut out, "{\"type\":\"done\",\"total_size\":");
            push_u64(&mut out, *total_size);
            push_str_chars(&mut out, ",\"total_items\":");
            push_u64(&mut out, *total_items);
            push_str_chars(&mut out, "}");
            proof {
                assert(out@ =~= encode_event(m@));
            }
        },
    }
    chars_to_string(&out)
}

} // verus!
