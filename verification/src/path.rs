//! Path text handling: joining a name onto a directory path the way a Unix
//! `PathBuf::push` does, and cutting a path after a byte offset the way
//! `str::get(n..)` does.
use vstd::prelude::*;
use vstd::string::*;
use vstd::utf8::*;

verus! {

broadcast use vstd::utf8::encode_utf8_valid_utf8, vstd::utf8::encode_utf8_decode_utf8;

/// A path is absolute when it starts with the separator `/`.
pub open spec fn is_absolute_path(p: Seq<char>) -> bool {
    p.len() > 0 && p[0] == '/'
}

/// Joining onto `base` inserts a separator when `base` is non-empty and does
/// not already end with one.
pub open spec fn needs_separator(base: Seq<char>) -> bool {
    base.len() > 0 && base.last() != '/'
}

/// The text of `base` with `name` pushed onto it: an absolute `name`
/// replaces `base`, otherwise the two are joined by a single separator.
pub open spec fn spec_path_join(base: Seq<char>, name: Seq<char>) -> Seq<char> {
    if is_absolute_path(name) {
        name
    } else if needs_separator(base) {
        base + seq!['/'] + name
    } else {
        base + name
    }
}

/// The number of bytes in the UTF-8 encoding of `s`.
pub open spec fn utf8_len(s: Seq<char>) -> nat {
    encode_utf8(s).len()
}

/// The text that follows the first `n` bytes of `s`, when byte `n` starts a
/// character (or is the end of `s`); `None` otherwise.
pub open spec fn spec_suffix_from(s: Seq<char>, n: int) -> Option<Seq<char>> {
    let bytes = encode_utf8(s);
    if is_char_boundary(bytes, n) {
        Some(decode_utf8(bytes.subrange(n, bytes.len() as int)))
    } else {
        None
    }
}

/// The UTF-8 encoding of a concatenation is the concatenation of the encodings.
pub proof fn lemma_encode_utf8_concat(a: Seq<char>, b: Seq<char>)
    ensures
        encode_utf8(a + b) == encode_utf8(a) + encode_utf8(b),
    decreases a.len(),
{
    if a.len() == 0 {
        assert(a + b =~= b);
        assert(encode_utf8(a) + encode_utf8(b) =~= encode_utf8(b));
    } else {
        assert((a + b).drop_first() =~= a.drop_first() + b);
        lemma_encode_utf8_concat(a.drop_first(), b);
        assert((a + b)[0] == a[0]);
        assert(encode_utf8(a + b) =~= encode_utf8(a) + encode_utf8(b));
    }
}

/// A non-empty text has a non-empty encoding.
proof fn lemma_encode_utf8_nonempty(s: Seq<char>)
    ensures
        (encode_utf8(s).len() == 0) <==> (s.len() == 0),
{
    if s.len() > 0 {
        assert(encode_scalar(s[0] as u32).len() > 0);
    }
}

proof fn lemma_scalar_first_byte(c: u32)
    requires
        is_scalar(c),
    ensures
        encode_scalar(c).len() > 0,
        (encode_scalar(c)[0] == 0x2Fu8) <==> (c == 0x2Fu32),
{
    if has_width_1_encoding(c) {
        assert((c & 0x7F) as u8 == 0x2Fu8 <==> c == 0x2Fu32) by (bit_vector)
            requires
                c <= 0x7F,
        ;
    } else if has_width_2_encoding(c) {
        assert((0xC0u8 | ((c >> 6) & 0x1F) as u8) != 0x2Fu8) by (bit_vector);
    } else if has_width_3_encoding(c) {
        assert((0xE0u8 | ((c >> 12) & 0x0F) as u8) != 0x2Fu8) by (bit_vector);
    } else {
        assert((0xF0u8 | ((c >> 18) & 0x7) as u8) != 0x2Fu8) by (bit_vector);
    }
}

proof fn lemma_scalar_last_byte(c: u32)
    requires
        is_scalar(c),
    ensures
        encode_scalar(c).len() > 0,
        (encode_scalar(c).last() == 0x2Fu8) <==> (c == 0x2Fu32),
{
    if has_width_1_encoding(c) {
        assert((c & 0x7F) as u8 == 0x2Fu8 <==> c == 0x2Fu32) by (bit_vector)
            requires
                c <= 0x7F,
        ;
    } else {
        assert((0x80u8 | (c & 0x3F) as u8) != 0x2Fu8) by (bit_vector);
    }
}

proof fn lemma_char_is_slash(c: char)
    ensures
        (c == '/') <==> ((c as u32) == 0x2Fu32),
{
    char_u32_cast(c, c as u32);
    char_u32_cast('/', '/' as u32);
    assert(('/' as u32) == 0x2Fu32);
}

/// The encoding of a single character is the encoding of its scalar value.
proof fn lemma_encode_single(c: char)
    ensures
        encode_utf8(seq![c]) == encode_scalar(c as u32),
{
    let s = seq![c];
    assert(s.len() == 1);
    assert(s[0] == c);
    assert(s.drop_first() =~= Seq::<char>::empty());
    assert(encode_utf8(s.drop_first()) =~= Seq::<u8>::empty());
    assert(encode_utf8(s) =~= encode_scalar(c as u32) + encode_utf8(s.drop_first()));
    assert(encode_utf8(s) =~= encode_scalar(c as u32));
}

/// The first byte of an encoding is `/` exactly when the first character is.
proof fn lemma_first_byte_slash(s: Seq<char>)
    requires
        s.len() > 0,
    ensures
        encode_utf8(s).len() > 0,
        (encode_utf8(s)[0] == 0x2Fu8) <==> (s[0] == '/'),
{
    char_is_scalar(s[0]);
    lemma_scalar_first_byte(s[0] as u32);
    lemma_char_is_slash(s[0]);
    assert(encode_utf8(s)[0] == encode_scalar(s[0] as u32)[0]);
}

/// The last byte of an encoding is `/` exactly when the last character is.
proof fn lemma_last_byte_slash(s: Seq<char>)
    requires
        s.len() > 0,
    ensures
        encode_utf8(s).len() > 0,
        (encode_utf8(s).last() == 0x2Fu8) <==> (s.last() == '/'),
{
    let init = s.drop_last();
    let c = s.last();
    assert(s =~= init + seq![c]);
    lemma_encode_utf8_concat(init, seq![c]);
    lemma_encode_single(c);
    char_is_scalar(c);
    lemma_scalar_last_byte(c as u32);
    lemma_char_is_slash(c);
}

/// Whether `s` starts with the path separator.
pub fn starts_with_separator(s: &str) -> (r: bool)
    ensures
        r == is_absolute_path(s@),
{
    let b = s.as_bytes();
    proof {
        lemma_encode_utf8_nonempty(s@);
    }
    if b.len() == 0 {
        false
    } else {
        proof {
            lemma_first_byte_slash(s@);
        }
        b[0] == 0x2Fu8
    }
}

/// Whether `s` ends with the path separator.
pub fn ends_with_separator(s: &str) -> (r: bool)
    ensures
        r == (s@.len() > 0 && s@.last() == '/'),
{
    let b = s.as_bytes();
    proof {
        lemma_encode_utf8_nonempty(s@);
    }
    if b.len() == 0 {
        false
    } else {
        proof {
            lemma_last_byte_slash(s@);
        }
        b[b.len() - 1] == 0x2Fu8
    }
}

/// Pushes `name` onto the directory path `base`.
pub fn path_join(base: &str, name: &str) -> (r: String)
    ensures
        r@ == spec_path_join(base@, name@),
{
    if starts_with_separator(name) {
        return name.to_owned();
    }
    let mut r = base.to_owned();
    if !base.is_empty() && !ends_with_separator(base) {
        let sep = "/";
        proof {
            reveal_strlit("/");
        }
        r.append(sep);
    }
    r.append(name);
    r
}

/// The text of `s` after its first `n` bytes, as `str::get(n..)` gives it.
pub fn str_suffix_from(s: &str, n: usize) -> (r: Option<&str>)
    ensures
        r is Some <==> spec_suffix_from(s@, n as int) is Some,
        r matches Some(t) ==> spec_suffix_from(s@, n as int) == Some(t@),
{
    if s.is_char_boundary(n) {
        let (_head, tail) = s.split_at(n);
        proof {
            let bytes = encode_utf8(s@);
            assert(tail.spec_bytes() =~= bytes.subrange(n as int, bytes.len() as int));
        }
        Some(tail)
    } else {
        None
    }
}

/// The byte length that a root path takes up at the front of the paths
/// below it, its separator included.
pub fn get_root_path_len(root_path: &str) -> (r: usize)
    requires
        utf8_len(root_path@) < usize::MAX,
    ensures
        r == utf8_len(root_path@) + 1,
{
    root_path.len() + 1
}

/// The position right after the encoding of a prefix is a character boundary.
pub proof fn lemma_boundary_after_prefix(a: Seq<char>, b: Seq<char>)
    ensures
        is_char_boundary(encode_utf8(a + b), utf8_len(a) as int),
    decreases a.len(),
{
    let bytes = encode_utf8(a + b);
    if a.len() == 0 {
    } else {
        let rest = a.drop_first();
        lemma_boundary_after_prefix(rest, b);
        assert((a + b).drop_first() =~= rest + b);
        encode_utf8_first_scalar(a + b);
        assert(pop_first_scalar(bytes) =~= encode_utf8(rest + b));
        lemma_encode_utf8_concat(a, b);
        lemma_encode_utf8_concat(rest, b);
        assert(utf8_len(a) == encode_scalar(a[0] as u32).len() + utf8_len(rest));
        assert(bytes.len() >= utf8_len(a));
    }
}

/// Cutting the encoding of a prefix off a concatenation leaves the rest.
pub proof fn lemma_suffix_after_prefix(a: Seq<char>, b: Seq<char>)
    ensures
        spec_suffix_from(a + b, utf8_len(a) as int) == Some(b),
{
    lemma_boundary_after_prefix(a, b);
    lemma_encode_utf8_concat(a, b);
    let bytes = encode_utf8(a + b);
    assert(bytes.subrange(utf8_len(a) as int, bytes.len() as int) =~= encode_utf8(b));
}

/// The key of an entry taken relative to its parent directory, as the
/// separator-inclusive root length cuts it, is the entry's own name.
pub proof fn lemma_relative_key_is_name(parent: Seq<char>, name: Seq<char>)
    requires
        needs_separator(parent),
        !is_absolute_path(name),
    ensures
        spec_suffix_from(spec_path_join(parent, name), utf8_len(parent) + 1int) == Some(name),
{
    let prefix = parent + seq!['/'];
    assert(spec_path_join(parent, name) =~= prefix + name);
    lemma_encode_utf8_concat(parent, seq!['/']);
    let c = '/';
    lemma_encode_single(c);
    char_is_scalar(c);
    lemma_scalar_first_byte(c as u32);
    lemma_char_is_slash(c);
    assert(utf8_len(prefix) == utf8_len(parent) + 1);
    lemma_suffix_after_prefix(prefix, name);
}

} // verus!
