use crate::text::str_eq;
use vstd::hash_map::StringHashMap;
use vstd::prelude::*;
use vstd::string::*;
use vstd::utf8::*;

verus! {

/// Bytes of a kernel task name that carry text: one less than the field, for
/// the terminator.
pub const MAX_COMM_LEN: usize = 15;

/// Whether the first `count` characters of `name` take at most
/// `MAX_COMM_LEN` bytes in UTF-8.
pub open spec fn fits(name: Seq<char>, count: int) -> bool {
    0 <= count <= name.len() && encode_utf8(name.take(count)).len() <= MAX_COMM_LEN
}

/// The largest count up to `limit` of leading characters of `name` that fit.
pub open spec fn largest_fit(name: Seq<char>, limit: int) -> int
    decreases limit,
{
    if limit <= 0 {
        0
    } else if fits(name, limit) {
        limit
    } else {
        largest_fit(name, limit - 1)
    }
}

/// A name as the kernel would keep it: its longest prefix of whole
/// characters that takes at most `MAX_COMM_LEN` bytes in UTF-8.
pub open spec fn truncated(name: Seq<char>) -> Seq<char> {
    name.take(largest_fit(name, name.len() as int))
}

/// The encoding of a text in two parts is the encoding of the parts, one
/// after the other.
pub proof fn lemma_encoding_of_parts(first: Seq<char>, second: Seq<char>)
    ensures
        encode_utf8(first + second) == encode_utf8(first) + encode_utf8(second),
    decreases first.len(),
{
    if first.len() == 0 {
        assert(first + second =~= second);
        assert(encode_utf8(first) + encode_utf8(second) =~= encode_utf8(second));
    } else {
        lemma_encoding_of_parts(first.drop_first(), second);
        assert((first + second).drop_first() =~= first.drop_first() + second);
        assert((first + second)[0] == first[0]);
        assert(encode_utf8(first + second) =~= encode_utf8(first) + encode_utf8(second));
    }
}

/// The encoding of a text of one character is the encoding of the character.
pub proof fn lemma_encoding_of_one(c: char)
    ensures
        encode_utf8(seq![c]) == encode_scalar(c as u32),
{
    let text = seq![c];
    assert(text.drop_first() =~= Seq::<char>::empty());
    assert(encode_utf8(text.drop_first()) =~= Seq::<u8>::empty());
    assert(encode_utf8(text) =~= encode_scalar(text[0] as u32) + encode_utf8(text.drop_first()));
    assert(encode_utf8(text) =~= encode_scalar(c as u32));
}

proof fn lemma_bytes_of_scalar_are_not_zero(scalar: u32)
    by (bit_vector)
    requires
        0 < scalar <= 0x10FFFF,
    ensures
        scalar <= 0x7F ==> (scalar & 0x7F) as u8 != 0,
        0xC0 | ((scalar >> 6) & 0x1F) as u8 != 0,
        0xE0 | ((scalar >> 12) & 0x0F) as u8 != 0,
        0xF0 | ((scalar >> 18) & 0x7) as u8 != 0,
        0x80 | (scalar & 0x3F) as u8 != 0,
        0x80 | ((scalar >> 6) & 0x3F) as u8 != 0,
        0x80 | ((scalar >> 12) & 0x3F) as u8 != 0,
{
}

/// The encoding of a text without a NUL character holds no zero byte.
pub proof fn lemma_encoding_without_zero(text: Seq<char>)
    requires
        forall|i: int| 0 <= i < text.len() ==> text[i] != '\0',
    ensures
        forall|j: int| 0 <= j < encode_utf8(text).len() ==> #[trigger] encode_utf8(text)[j] != 0,
    decreases text.len(),
{
    if text.len() > 0 {
        let rest = text.drop_first();
        assert forall|i: int| 0 <= i < rest.len() implies rest[i] != '\0' by {
            assert(rest[i] == text[i + 1]);
        }
        lemma_encoding_without_zero(rest);
        let first: char = text[0];
        let scalar: u32 = first as u32;
        char_is_scalar(first);
        if scalar == 0 {
            char_u32_cast(first, scalar);
            assert(first == '\0');
        }
        lemma_bytes_of_scalar_are_not_zero(scalar);
        let head = encode_scalar(scalar);
        assert forall|j: int| 0 <= j < encode_utf8(text).len() implies #[trigger] encode_utf8(
            text,
        )[j] != 0 by {
            assert(encode_utf8(text) == head + encode_utf8(rest));
            if j < head.len() {
                assert(encode_utf8(text)[j] == head[j]);
            } else {
                assert(encode_utf8(text)[j] == encode_utf8(rest)[j - head.len()]);
            }
        }
    }
}

/// A longer prefix takes no fewer bytes.
proof fn lemma_prefix_bytes_grow(name: Seq<char>, shorter: int, longer: int)
    requires
        0 <= shorter <= longer <= name.len(),
    ensures
        encode_utf8(name.take(shorter)).len() <= encode_utf8(name.take(longer)).len(),
{
    assert(name.take(longer) =~= name.take(shorter) + name.subrange(shorter, longer));
    lemma_encoding_of_parts(name.take(shorter), name.subrange(shorter, longer));
}

proof fn lemma_largest_fit(name: Seq<char>, limit: int)
    requires
        0 <= limit <= name.len(),
    ensures
        fits(name, largest_fit(name, limit)),
        largest_fit(name, limit) <= limit,
        forall|count: int| count <= limit && fits(name, count) ==> count <= largest_fit(name, limit),
    decreases limit,
{
    if limit <= 0 {
        assert(name.take(0) =~= Seq::<char>::empty());
    } else if !fits(name, limit) {
        lemma_largest_fit(name, limit - 1);
    }
}

/// Once a count of leading characters does not fit, no larger count does.
proof fn lemma_largest_fit_found(name: Seq<char>, count: int)
    requires
        fits(name, count),
        count < name.len() ==> !fits(name, count + 1),
    ensures
        largest_fit(name, name.len() as int) == count,
{
    lemma_largest_fit(name, name.len() as int);
    let found = largest_fit(name, name.len() as int);
    if found > count {
        lemma_prefix_bytes_grow(name, count + 1, found);
    }
}

/// What truncation keeps: a prefix of the name that fits the kernel's
/// field, the whole name where that fits, and otherwise as many whole
/// characters as fit. Truncating twice changes nothing.
pub proof fn lemma_truncated(name: Seq<char>)
    ensures
        truncated(name).is_prefix_of(name),
        encode_utf8(truncated(name)).len() <= MAX_COMM_LEN,
        encode_utf8(name).len() <= MAX_COMM_LEN ==> truncated(name) == name,
        forall|count: int| fits(name, count) ==> count <= truncated(name).len(),
        truncated(truncated(name)) == truncated(name),
{
    lemma_largest_fit(name, name.len() as int);
    let kept = truncated(name);
    assert(name.take(name.len() as int) =~= name);
    if encode_utf8(name).len() <= MAX_COMM_LEN {
        assert(fits(name, name.len() as int));
        assert(kept =~= name);
    }
    assert(kept.take(kept.len() as int) =~= kept);
    assert(fits(kept, kept.len() as int));
    assert(truncated(kept) =~= kept);
}

/// A truncated name written in ASCII is the first `MAX_COMM_LEN` characters
/// of the name, or all of it.
pub proof fn lemma_truncated_ascii(name: Seq<char>)
    requires
        is_ascii_chars(name),
    ensures
        truncated(name) == if name.len() <= MAX_COMM_LEN {
            name
        } else {
            name.take(MAX_COMM_LEN as int)
        },
{
    let count: int = if name.len() <= MAX_COMM_LEN {
        name.len() as int
    } else {
        MAX_COMM_LEN as int
    };
    is_ascii_chars_encode_utf8(name.take(count));
    if count < name.len() {
        is_ascii_chars_encode_utf8(name.take(count + 1));
    }
    lemma_largest_fit_found(name, count);
    assert(name.take(name.len() as int) =~= name);
}

/// How many bytes the character `c` takes in UTF-8.
pub fn utf8_width(c: char) -> (width: usize)
    ensures
        width == encode_scalar(c as u32).len(),
        1 <= width <= 4,
{
    let code: u32 = c as u32;
    if code <= 0x7F {
        1
    } else if code <= 0x7FF {
        2
    } else if code <= 0xFFFF {
        3
    } else {
        4
    }
}

/// A name as the kernel would keep it: the longest prefix of `name`, in
/// whole characters, that takes at most `MAX_COMM_LEN` bytes.
pub fn truncate_process_name(name: &str) -> (r: String)
    ensures
        r@ == truncated(name@),
        r@.is_prefix_of(name@),
        encode_utf8(r@).len() <= MAX_COMM_LEN,
        encode_utf8(name@).len() <= MAX_COMM_LEN ==> r@ == name@,
        forall|count: int| fits(name@, count) ==> count <= r@.len(),
{
    proof {
        lemma_truncated(name@);
    }
    if name.as_bytes().len() <= MAX_COMM_LEN {
        return name.to_owned();
    }
    let total: usize = name.unicode_len();
    let mut count: usize = 0;
    let mut used: usize = 0;
    let mut full = false;
    proof {
        assert(name@.take(0) =~= Seq::<char>::empty());
    }
    while count < total && !full
        invariant
            total == name@.len(),
            count <= total,
            used == encode_utf8(name@.take(count as int)).len(),
            used <= MAX_COMM_LEN,
            full ==> count < total && !fits(name@, count + 1),
        decreases total - count + if full { 0int } else { 1int },
    {
        let width: usize = utf8_width(name.get_char(count));
        proof {
            assert(name@.take(count + 1) =~= name@.take(count as int) + seq![name@[count as int]]);
            lemma_encoding_of_parts(name@.take(count as int), seq![name@[count as int]]);
            lemma_encoding_of_one(name@[count as int]);
        }
        if used + width > MAX_COMM_LEN {
            full = true;
        } else {
            used += width;
            count += 1;
        }
    }
    proof {
        lemma_largest_fit_found(name@, count as int);
    }
    name.substring_char(0, count).to_owned()
}

/// Whether the configured name `candidate` is kept by the kernel as `truncated_name`.
pub open spec fn truncates_to(truncated_name: Seq<char>) -> spec_fn(String) -> bool {
    |candidate: String| truncated(candidate@) == truncated_name
}

/// The names among `process_names` that the kernel would keep as
/// `truncated_name`, in their order.
pub fn find_process_configs_by_truncated_name(truncated_name: &str, process_names: &[String]) -> (r:
    Vec<String>)
    ensures
        r@ == process_names@.filter(truncates_to(truncated_name@)),
{
    let ghost pred = truncates_to(truncated_name@);
    let mut matches: Vec<String> = Vec::new();
    let mut i: usize = 0;
    proof {
        reveal(Seq::filter);
        assert(process_names@.take(0) =~= Seq::<String>::empty());
    }
    while i < process_names.len()
        invariant
            i <= process_names.len(),
            pred == truncates_to(truncated_name@),
            matches@ == process_names@.take(i as int).filter(pred),
        decreases process_names.len() - i,
    {
        let process_name = &process_names[i];
        let truncated_config_name = truncate_process_name(process_name.as_str());
        proof {
            assert(process_names@.take(i + 1) =~= process_names@.take(i as int).push(*process_name));
            process_names@.take(i as int).lemma_filter_push(*process_name, pred);
        }
        if str_eq(truncated_config_name.as_str(), truncated_name) {
            matches.push(process_name.clone());
        }
        i += 1;
    }
    proof {
        assert(process_names@.take(i as int) =~= process_names@);
    }
    matches
}

/// The table from each kernel-side name to the configured names it stands
/// for: its keys are the truncations of `names`, and under each key stand,
/// in their order, the names that truncate to it.
pub open spec fn is_name_mapping(mapping: Map<Seq<char>, Vec<String>>, names: Seq<String>) -> bool {
    &&& forall|key: Seq<char>| #[trigger]
        mapping.contains_key(key) <==> exists|i: int|
            0 <= i < names.len() && truncated(#[trigger] names[i]@) == key
    &&& forall|key: Seq<char>| #[trigger]
        mapping.contains_key(key) ==> mapping[key]@ == names.filter(truncates_to(key))
}

/// The table from each kernel-side name to the configured names it stands for.
pub fn build_process_name_mapping(process_names: &[String]) -> (mapping: StringHashMap<Vec<String>>)
    ensures
        is_name_mapping(mapping@, process_names@),
{
    let mut mapping: StringHashMap<Vec<String>> = StringHashMap::new();
    let mut i: usize = 0;
    proof {
        reveal(Seq::filter);
        assert(process_names@.take(0) =~= Seq::<String>::empty());
    }
    while i < process_names.len()
        invariant
            i <= process_names.len(),
            is_name_mapping(mapping@, process_names@.take(i as int)),
        decreases process_names.len() - i,
    {
        let process_name = &process_names[i];
        let key = truncate_process_name(process_name.as_str());
        let ghost seen = process_names@.take(i as int);
        let ghost before = mapping@;
        let mut group: Vec<String> = match mapping.get(key.as_str()) {
            Some(known) => known.clone(),
            None => Vec::new(),
        };
        proof {
            assert(group@ =~= seen.filter(truncates_to(key@))) by {
                if before.contains_key(key@) {
                    assert(group@ =~= before[key@]@);
                } else {
                    assert forall|j: int| 0 <= j < seen.len() implies !truncates_to(key@)(
                        #[trigger] seen[j],
                    ) by {
                        if truncated(seen[j]@) == key@ {
                            assert(before.contains_key(key@));
                        }
                    }
                    seen.lemma_all_neg_filter_empty(truncates_to(key@));
                }
            }
        }
        group.push(process_name.clone());
        mapping.insert(key, group);
        proof {
            let next = process_names@.take(i + 1);
            assert(next =~= seen.push(*process_name));
            assert forall|k: Seq<char>| #[trigger]
                mapping@.contains_key(k) <==> exists|j: int|
                    0 <= j < next.len() && truncated(#[trigger] next[j]@) == k by {
                if mapping@.contains_key(k) {
                    if k == key@ {
                        assert(truncated(next[i as int]@) == k);
                    } else {
                        assert(before.contains_key(k));
                        let j = choose|j: int| 0 <= j < seen.len() && truncated(#[trigger] seen[j]@) == k;
                        assert(truncated(next[j]@) == k);
                    }
                }
                if exists|j: int| 0 <= j < next.len() && truncated(#[trigger] next[j]@) == k {
                    let j = choose|j: int| 0 <= j < next.len() && truncated(#[trigger] next[j]@) == k;
                    if j < i {
                        assert(truncated(seen[j]@) == k);
                    }
                }
            }
            assert forall|k: Seq<char>| #[trigger] mapping@.contains_key(k) implies mapping@[k]@
                == next.filter(truncates_to(k)) by {
                seen.lemma_filter_push(*process_name, truncates_to(k));
            }
        }
        i += 1;
    }
    proof {
        assert(process_names@.take(i as int) =~= process_names@);
    }
    mapping
}

/// Position just after the last separator of `path`; 0 if it has none.
pub open spec fn component_start(path: Seq<char>) -> int
    decreases path.len(),
{
    if path.len() == 0 {
        0
    } else if path.last() == '/' {
        path.len() as int
    } else {
        component_start(path.drop_last())
    }
}

/// The final component of `path`, as a file name: trailing separators and
/// `.` components are passed over; `None` where nothing is left, or where
/// what is left ends in `..`.
pub open spec fn file_name(path: Seq<char>) -> Option<Seq<char>>
    decreases path.len(),
{
    if path.len() == 0 {
        None
    } else if path.last() == '/' {
        file_name(path.drop_last())
    } else {
        let start = component_start(path);
        let component = path.subrange(start, path.len() as int);
        if component == seq!['.'] {
            if 0 <= start < path.len() {
                file_name(path.take(start))
            } else {
                None
            }
        } else if component == seq!['.', '.'] {
            None
        } else {
            Some(component)
        }
    }
}

/// The executable a command line starts: the file name of `command`, or
/// `command` itself where it has none.
pub open spec fn executable_name(command: Seq<char>) -> Seq<char> {
    match file_name(command) {
        Some(name) => name,
        None => command,
    }
}

proof fn lemma_component_start(path: Seq<char>, start: int)
    requires
        0 <= start <= path.len(),
        start > 0 ==> path[start - 1] == '/',
        forall|i: int| start <= i < path.len() ==> path[i] != '/',
    ensures
        component_start(path) == start,
    decreases path.len() - start,
{
    if path.len() > start {
        lemma_component_start(path.drop_last(), start);
    } else if path.len() > 0 {
    }
}

/// The executable a command line starts: `nginx` for `/usr/bin/nginx`.
pub fn extract_executable_name(command: &str) -> (r: String)
    ensures
        r@ == executable_name(command@),
{
    let total = command.unicode_len();
    let mut end: usize = total;
    proof {
        assert(command@.take(total as int) =~= command@);
    }
    while end > 0
        invariant
            total == command@.len(),
            end <= total,
            file_name(command@) == file_name(command@.take(end as int)),
        decreases end,
    {
        let ghost path = command@.take(end as int);
        if command.get_char(end - 1) == '/' {
            proof {
                assert(path.drop_last() =~= command@.take(end - 1));
            }
            end -= 1;
        } else {
            let mut start: usize = end - 1;
            while start > 0 && command.get_char(start - 1) != '/'
                invariant
                    start < end <= total,
                    total == command@.len(),
                    forall|i: int| start <= i < end ==> command@[i] != '/',
                decreases start,
            {
                start -= 1;
            }
            proof {
                lemma_component_start(path, start as int);
                assert(path.subrange(start as int, end as int) =~= command@.subrange(
                    start as int,
                    end as int,
                ));
                assert(path.take(start as int) =~= command@.take(start as int));
            }
            let ghost component = command@.subrange(start as int, end as int);
            let width = end - start;
            if width == 1 && command.get_char(start) == '.' {
                proof {
                    assert(component =~= seq!['.']);
                }
                end = start;
            } else if width == 2 && command.get_char(start) == '.' && command.get_char(start + 1)
                == '.' {
                proof {
                    assert(component =~= seq!['.', '.']);
                }
                return command.to_owned();
            } else {
                proof {
                    if component == seq!['.'] {
                        assert(component.len() == 1);
                        assert(component[0] == '.');
                    }
                    if component == seq!['.', '.'] {
                        assert(component.len() == 2);
                        assert(component[0] == '.' && component[1] == '.');
                    }
                }
                return command.substring_char(start, end).to_owned();
            }
        }
    }
    proof {
        assert(command@.take(0).len() == 0);
    }
    command.to_owned()
}

/// The configured name behind a kernel-side name: the first of those that
/// truncate to it, `None` where the table has none.
pub fn smart_match_process_name(truncated_name: &str, name_mapping: &StringHashMap<Vec<String>>) -> (r:
    Option<String>)
    ensures
        r == if name_mapping@.contains_key(truncated_name@) && name_mapping@[truncated_name@]@.len()
            > 0 {
            Some(name_mapping@[truncated_name@]@[0])
        } else {
            None
        },
{
    match name_mapping.get(truncated_name) {
        Some(matches) => {
            if matches.len() >= 1 {
                Some(matches[0].clone())
            } else {
                None
            }
        },
        None => None,
    }
}

} // verus!
