//! Choice of a grammar from a file's extension.

use vstd::prelude::*;
use vstd::utf8::encode_utf8;

verus! {

/// The languages for which a grammar is available.
#[derive(Clone, Copy, Debug, PartialEq, Eq, Structural)]
pub enum Lang {
    Python,
    JavaScript,
    Rust,
}

pub const DOT: u8 = 0x2e;

/// `i` is the position of the last `.` in `b`.
pub open spec fn is_last_dot(b: Seq<u8>, i: int) -> bool {
    &&& 0 <= i < b.len()
    &&& b[i] == DOT
    &&& forall|j: int| i < j < b.len() ==> b[j] != DOT
}

/// The bytes after the last `.`, or `None` when there is no `.`.
pub open spec fn extension_of(b: Seq<u8>) -> Option<Seq<u8>> {
    if exists|i: int| is_last_dot(b, i) {
        let i = choose|i: int| is_last_dot(b, i);
        Some(b.subrange(i + 1, b.len() as int))
    } else {
        None
    }
}

/// The language registered for an extension.
pub open spec fn lang_of_extension(e: Seq<u8>) -> Option<Lang> {
    if e == seq![0x70u8, 0x79u8] {
        Some(Lang::Python)
    } else if e == seq![0x6au8, 0x73u8] || e == seq![0x6au8, 0x73u8, 0x78u8] {
        Some(Lang::JavaScript)
    } else if e == seq![0x72u8, 0x73u8] {
        Some(Lang::Rust)
    } else {
        None
    }
}

/// The language of a path, decided by its extension alone.
pub open spec fn lang_of_path(path: Seq<char>) -> Option<Lang> {
    match extension_of(encode_utf8(path)) {
        Some(e) => lang_of_extension(e),
        None => None,
    }
}

proof fn lemma_last_dot_unique(b: Seq<u8>, i: int, k: int)
    requires
        is_last_dot(b, i),
        is_last_dot(b, k),
    ensures
        i == k,
{
}

fn lang_of_extension_bytes(b: &[u8], start: usize) -> (r: Option<Lang>)
    requires
        start <= b@.len(),
    ensures
        r == lang_of_extension(b@.subrange(start as int, b@.len() as int)),
{
    let ghost e = b@.subrange(start as int, b@.len() as int);
    let n = b.len() - start;
    if n == 2 && b[start] == 0x70 && b[start + 1] == 0x79 {
        assert(e =~= seq![0x70u8, 0x79u8]);
        Some(Lang::Python)
    } else if n == 2 && b[start] == 0x6a && b[start + 1] == 0x73 {
        assert(e =~= seq![0x6au8, 0x73u8]);
        Some(Lang::JavaScript)
    } else if n == 3 && b[start] == 0x6a && b[start + 1] == 0x73 && b[start + 2] == 0x78 {
        assert(e =~= seq![0x6au8, 0x73u8, 0x78u8]);
        Some(Lang::JavaScript)
    } else if n == 2 && b[start] == 0x72 && b[start + 1] == 0x73 {
        assert(e =~= seq![0x72u8, 0x73u8]);
        Some(Lang::Rust)
    } else {
        assert(e.len() == n);
        proof {
            if n == 2 {
                assert(seq![0x70u8, 0x79u8][0] == 0x70u8);
                assert(seq![0x6au8, 0x73u8][0] == 0x6au8);
                assert(seq![0x72u8, 0x73u8][0] == 0x72u8);
                assert(e[0] == b@[start as int] && e[1] == b@[start + 1]);
                assert(seq![0x70u8, 0x79u8][1] == 0x79u8);
                assert(seq![0x6au8, 0x73u8][1] == 0x73u8);
                assert(seq![0x72u8, 0x73u8][1] == 0x73u8);
            }
            if n == 3 {
                assert(e[0] == b@[start as int] && e[1] == b@[start + 1] && e[2] == b@[start + 2]);
                assert(seq![0x6au8, 0x73u8, 0x78u8][0] == 0x6au8);
                assert(seq![0x6au8, 0x73u8, 0x78u8][1] == 0x73u8);
                assert(seq![0x6au8, 0x73u8, 0x78u8][2] == 0x78u8);
            }
        }
        None
    }
}

/// Picks the language of `file_path` from the bytes after its last `.`:
/// `py` is Python, `js` and `jsx` are JavaScript, `rs` is Rust. A path
/// with another extension, or with none, has no language.
pub fn get_language_from_path(file_path: &str) -> (r: Option<Lang>)
    ensures
        r == lang_of_path(file_path@),
{
    let b = file_path.as_bytes();
    let mut i: usize = b.len();
    while i > 0
        invariant
            i <= b@.len(),
            b@ == encode_utf8(file_path@),
            forall|j: int| i <= j < b@.len() ==> b@[j] != DOT,
        decreases i,
    {
        if b[i - 1] == DOT {
            proof {
                assert(is_last_dot(b@, i - 1));
                assert forall|k: int| is_last_dot(b@, k) implies k == i - 1 by {
                    lemma_last_dot_unique(b@, k, i - 1);
                }
            }
            return lang_of_extension_bytes(b, i);
        }
        i = i - 1;
    }
    proof {
        assert forall|k: int| !is_last_dot(b@, k) by {
            if is_last_dot(b@, k) {
                assert(b@[k] == DOT);
            }
        }
    }
    None
}

} // verus!
