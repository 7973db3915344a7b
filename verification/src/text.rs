use vstd::prelude::*;
use vstd::string::*;
use vstd::utf8::*;

verus! {

/// Two texts with the same UTF-8 encoding are the same text.
pub proof fn lemma_same_bytes_same_text(a: Seq<char>, b: Seq<char>)
    requires
        encode_utf8(a) == encode_utf8(b),
    ensures
        a == b,
{
    encode_utf8_decode_utf8(a);
    encode_utf8_decode_utf8(b);
}

/// Whether two string slices hold the same text.
pub fn str_eq(a: &str, b: &str) -> (same: bool)
    ensures
        same == (a@ == b@),
{
    let x = a.as_bytes();
    let y = b.as_bytes();
    if x.len() != y.len() {
        return false;
    }
    let mut i: usize = 0;
    while i < x.len()
        invariant
            x@ == a.spec_bytes(),
            y@ == b.spec_bytes(),
            x@.len() == y@.len(),
            i <= x@.len(),
            forall|j: int| 0 <= j < i ==> x@[j] == y@[j],
        decreases x@.len() - i,
    {
        if x[i] != y[i] {
            return false;
        }
        i += 1;
    }
    proof {
        assert(x@ =~= y@);
        lemma_same_bytes_same_text(a@, b@);
    }
    true
}


/// `file`, a relative path, adjoined to the directory `dir`: a separator
/// goes between them unless `dir` is empty or ends in one.
pub open spec fn joined(dir: Seq<char>, file: Seq<char>) -> Seq<char> {
    if dir.len() == 0 || dir.last() == '/' {
        dir + file
    } else {
        dir + seq!['/'] + file
    }
}

/// `file`, a relative path, adjoined to the directory `dir`.
pub fn join_path(dir: &str, file: &str) -> (r: String)
    ensures
        r@ == joined(dir@, file@),
{
    let n = dir.unicode_len();
    let mut out = dir.to_owned();
    if n > 0 && dir.get_char(n - 1) != '/' {
        proof {
            reveal_strlit("/");
            assert("/"@ =~= seq!['/']);
        }
        out.append("/");
    }
    out.append(file);
    out
}

/// Whether `needle` stands somewhere in `hay`, byte for byte.
pub open spec fn has_infix(hay: Seq<u8>, needle: Seq<u8>) -> bool {
    exists|at: int| occurs_at(hay, needle, at)
}

/// Whether `needle` stands in `hay` at position `at`.
pub open spec fn occurs_at(hay: Seq<u8>, needle: Seq<u8>, at: int) -> bool {
    &&& 0 <= at
    &&& at + needle.len() <= hay.len()
    &&& hay.subrange(at, at + needle.len()) == needle
}

/// Whether the text `needle` stands somewhere in the text `hay`.
pub fn contains_text(hay: &str, needle: &str) -> (found: bool)
    ensures
        found == has_infix(hay.spec_bytes(), needle.spec_bytes()),
{
    let h = hay.as_bytes();
    let n = needle.as_bytes();
    let hay_len: usize = h.len();
    let needle_len: usize = n.len();
    if needle_len > hay_len {
        return false;
    }
    let last: usize = hay_len - needle_len;
    let mut at: usize = 0;
    while at <= last
        invariant
            h@ == hay.spec_bytes(),
            n@ == needle.spec_bytes(),
            hay_len == h@.len(),
            needle_len == n@.len(),
            last == hay_len - needle_len,
            at <= last + 1,
            forall|k: int| 0 <= k < at ==> !occurs_at(h@, n@, k),
        decreases last + 1 - at,
    {
        let mut j: usize = 0;
        while j < needle_len && h[at + j] == n[j]
            invariant
                hay_len == h@.len(),
                needle_len == n@.len(),
                at <= last,
                last == hay_len - needle_len,
                j <= needle_len,
                forall|k: int| 0 <= k < j ==> h@[at + k] == n@[k],
            decreases needle_len - j,
        {
            j += 1;
        }
        if j == needle_len {
            proof {
                assert(h@.subrange(at as int, at + n@.len()) =~= n@);
                assert(occurs_at(h@, n@, at as int));
            }
            return true;
        }
        proof {
            if occurs_at(h@, n@, at as int) {
                assert(h@.subrange(at as int, at + n@.len())[j as int] == n@[j as int]);
            }
        }
        at += 1;
    }
    false
}

/// The names a list holds.
pub open spec fn name_set(names: Seq<String>) -> Set<Seq<char>> {
    Set::new(|name: Seq<char>| exists|i: int| 0 <= i < names.len() && #[trigger] names[i]@ == name)
}

/// Whether `name` stands in `names`.
pub fn holds_name(names: &Vec<String>, name: &str) -> (r: bool)
    ensures
        r == name_set(names@).contains(name@),
{
    let mut i: usize = 0;
    while i < names.len()
        invariant
            i <= names.len(),
            forall|j: int| 0 <= j < i ==> names[j]@ != name@,
        decreases names.len() - i,
    {
        if str_eq(names[i].as_str(), name) {
            return true;
        }
        i += 1;
    }
    false
}

} // verus!
