//! Names of the local cache files that fetched objects are kept in.
use crate::text::push_char;
use vstd::prelude::*;
use vstd::string::StringExecFns;

verus! {

/// The part of `s` after its last `/` (all of `s` when it has none).
pub open spec fn last_segment(s: Seq<char>) -> Seq<char>
    decreases s.len(),
{
    if s.len() == 0 {
        s
    } else if s.last() == '/' {
        Seq::empty()
    } else {
        last_segment(s.drop_last()).push(s.last())
    }
}

/// A character that may stand in a file name on every platform: the
/// characters `: < > " \ | ? *` and the ASCII control characters become `_`.
pub open spec fn file_safe(c: char) -> char {
    if c == ':' || c == '<' || c == '>' || c == '"' || c == '\\' || c == '|' || c == '?' || c
        == '*' || (c as u32) < 0x20 || (c as u32) == 0x7f {
        '_'
    } else {
        c
    }
}

/// The file name kept for an object key: the key's last path segment, or
/// `blob` when that segment is empty, with each character made file-safe.
pub open spec fn cache_file_name_spec(key: Seq<char>) -> Seq<char> {
    let seg = last_segment(key);
    let base = if seg.len() == 0 {
        "blob"@
    } else {
        seg
    };
    Seq::new(base.len(), |i: int| file_safe(base[i]))
}

fn file_safe_char(c: char) -> (r: char)
    ensures
        r == file_safe(c),
{
    let u = c as u32;
    if c == ':' || c == '<' || c == '>' || c == '"' || c == '\\' || c == '|' || c == '?' || c
        == '*' || u < 0x20 || u == 0x7f {
        '_'
    } else {
        c
    }
}

/// The file name kept for an object key, before the key's hash is put in
/// front of it.
pub fn cache_file_name(key: &str) -> (r: String)
    ensures
        r@ == cache_file_name_spec(key@),
{
    let n = key.unicode_len();
    let mut seg = String::new();
    let mut i: usize = 0;
    while i < n
        invariant
            n == key@.len(),
            i <= n,
            seg@ == last_segment(key@.subrange(0, i as int)),
        decreases n - i,
    {
        let c = key.get_char(i);
        assert(key@.subrange(0, i + 1).drop_last() =~= key@.subrange(0, i as int));
        if c == '/' {
            seg = String::new();
            assert(seg@ =~= Seq::<char>::empty());
        } else {
            push_char(&mut seg, c);
        }
        i = i + 1;
    }
    assert(key@.subrange(0, n as int) =~= key@);
    let base = if seg.unicode_len() == 0 {
        proof {
            reveal_strlit("blob");
        }
        String::from_str("blob")
    } else {
        seg
    };
    let m = base.unicode_len();
    let mut out = String::new();
    let mut j: usize = 0;
    while j < m
        invariant
            m == base@.len(),
            j <= m,
            out@ =~= Seq::new(j as nat, |k: int| file_safe(base@[k])),
        decreases m - j,
    {
        let c = file_safe_char(base.as_str().get_char(j));
        push_char(&mut out, c);
        j = j + 1;
    }
    out
}

/// A cache file name is one path segment of safe characters: never empty,
/// with no `/`, none of `: < > " \\ | ? *` and no ASCII control character.
pub proof fn lemma_cache_file_name_is_safe(key: Seq<char>)
    ensures
        cache_file_name_spec(key).len() > 0,
        forall|i: int|
            0 <= i < cache_file_name_spec(key).len() ==> {
                let c = #[trigger] cache_file_name_spec(key)[i];
                &&& c != '/'
                &&& c != ':' && c != '<' && c != '>' && c != '"' && c != '\\'
                &&& c != '|' && c != '?' && c != '*'
                &&& (c as u32) >= 0x20 && (c as u32) != 0x7f
            },
{
    lemma_last_segment_has_no_slash(key);
    reveal_strlit("blob");
}

/// The last segment of a text holds no `/`.
proof fn lemma_last_segment_has_no_slash(s: Seq<char>)
    ensures
        forall|i: int| 0 <= i < last_segment(s).len() ==> #[trigger] last_segment(s)[i] != '/',
    decreases s.len(),
{
    if s.len() > 0 && s.last() != '/' {
        let prev = last_segment(s.drop_last());
        lemma_last_segment_has_no_slash(s.drop_last());
        assert forall|i: int| 0 <= i < last_segment(s).len() implies #[trigger] last_segment(s)[i]
            != '/' by {
            if i < prev.len() {
                assert(last_segment(s)[i] == prev[i]);
            }
        }
    }
}

} // verus!
