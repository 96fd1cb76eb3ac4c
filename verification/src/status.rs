//! Plain status values reported to callers, and the size display rule.
use crate::codec::dec_digits;
use crate::codec::digit_char;
use crate::codec::push_digits;
use crate::text::chars_string;
use vstd::arithmetic::div_mod::lemma_div_is_ordered;
use vstd::prelude::*;

verus! {

/// What is known about the store on disk.
#[derive(Debug, Clone, PartialEq, Eq)]
pub struct DatabaseStatus {
    pub exists: bool,
    pub conversation_count: usize,
    pub size_bytes: u64,
    pub last_activity: Option<String>,
}

impl Default for DatabaseStatus {
    /// An absent database: nothing stored, nothing measured.
    fn default() -> (r: DatabaseStatus)
        ensures
            !r.exists,
            r.conversation_count == 0,
            r.size_bytes == 0,
            r.last_activity is None,
    {
        DatabaseStatus {
            exists: false,
            conversation_count: 0,
            size_bytes: 0,
            last_activity: None,
        }
    }
}

/// What is known about the embedding backend.
#[derive(Debug, Clone, PartialEq, Eq)]
pub struct EmbeddingsStatus {
    pub available: bool,
    pub provider: String,
    pub dimensions: usize,
}

/// The displayed form of a byte count: bytes below one KiB, otherwise
/// KiB or MiB with one decimal digit, truncated toward zero.
pub open spec fn size_text(bytes: nat) -> Seq<char> {
    if bytes < 1024 {
        dec_digits(bytes) + "B"@
    } else if bytes < 1048576 {
        dec_digits(bytes / 1024) + (seq!['.', digit_char((((bytes % 1024) * 10) / 1024) as int)]
            + "KB"@)
    } else {
        dec_digits(bytes / 1048576) + (seq![
            '.',
            digit_char((((bytes % 1048576) * 10) / 1048576) as int),
        ] + "MB"@)
    }
}

fn digit_char_of(d: u64) -> (c: char)
    requires
        d <= 9,
    ensures
        c == digit_char(d as int),
{
    match d {
        0 => '0',
        1 => '1',
        2 => '2',
        3 => '3',
        4 => '4',
        5 => '5',
        6 => '6',
        7 => '7',
        8 => '8',
        _ => '9',
    }
}

/// Renders a byte count for display, per `size_text`.
pub fn format_size(bytes: u64) -> (r: String)
    ensures
        r@ == size_text(bytes as nat),
{
    let mut out: Vec<char> = Vec::new();
    if bytes < 1024 {
        push_digits(&mut out, bytes);
        out.push('B');
        proof {
            reveal_strlit("B");
            assert(Seq::<char>::empty() + dec_digits(bytes as nat) =~= dec_digits(bytes as nat));
            assert(out@ =~= size_text(bytes as nat));
        }
    } else if bytes < 1048576 {
        push_digits(&mut out, bytes / 1024);
        out.push('.');
        let rem = bytes % 1024;
        proof {
            lemma_div_is_ordered((rem * 10) as int, 10230, 1024);
        }
        out.push(digit_char_of((rem * 10) / 1024));
        out.push('K');
        out.push('B');
        proof {
            reveal_strlit("KB");
            assert(Seq::<char>::empty() + dec_digits((bytes / 1024) as nat) =~= dec_digits(
                (bytes / 1024) as nat,
            ));
            assert(out@ =~= size_text(bytes as nat));
        }
    } else {
        push_digits(&mut out, bytes / 1048576);
        out.push('.');
        let rem = bytes % 1048576;
        proof {
            lemma_div_is_ordered((rem * 10) as int, 10485750, 1048576);
        }
        out.push(digit_char_of((rem * 10) / 1048576));
        out.push('M');
        out.push('B');
        proof {
            reveal_strlit("MB");
            assert(Seq::<char>::empty() + dec_digits((bytes / 1048576) as nat) =~= dec_digits(
                (bytes / 1048576) as nat,
            ));
            assert(out@ =~= size_text(bytes as nat));
        }
    }
    chars_string(&out)
}

} // verus!
