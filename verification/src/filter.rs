//! Include and exclude filters over directory and file names, built from
//! shell style glob patterns.
use glob_sl::{MatchOptions, Pattern};

use vstd::prelude::*;
use vstd::string::*;
use vstd::utf8::*;

use crate::def::Options;
use crate::path::{
    ends_with_separator, is_absolute_path, lemma_encode_utf8_concat, lemma_relative_key_is_name,
    needs_separator, path_join, spec_path_join, spec_suffix_from, str_suffix_from, utf8_len,
};

verus! {

broadcast use vstd::utf8::encode_utf8_valid_utf8, vstd::utf8::encode_utf8_decode_utf8;

#[verifier::external_type_specification]
#[verifier::external_body]
pub struct ExPattern(Pattern);

/// What compiling `pattern` as a glob gives: `None` when it is a valid
/// pattern, otherwise the text of the syntax error.
pub uninterp spec fn glob_compile_error(pattern: Seq<char>) -> Option<Seq<char>>;

/// Whether `text` matches the glob `pattern`, ASCII letters compared
/// case-insensitively unless `case_sensitive`.
pub uninterp spec fn glob_match(pattern: Seq<char>, text: Seq<char>, case_sensitive: bool) -> bool;

/// Compiles `pattern` with `glob_sl::Pattern::new`. The contract claims that
/// the outcome depends on the pattern text alone: whether it compiles, and
/// the error's display text when it does not.
#[verifier::external_body]
fn compile_glob(pattern: &str) -> (r: Result<Pattern, String>)
    ensures
        r is Ok <==> glob_compile_error(pattern@) is None,
        r matches Err(m) ==> glob_compile_error(pattern@) == Some(m@),
{
    match Pattern::new(pattern) {
        Ok(p) => Ok(p),
        Err(e) => Err(e.to_string()),
    }
}

/// A compiled glob pattern together with the text it was compiled from.
/// The only way to make one is `GlobPattern::new`, so the compiled form
/// always belongs to the text.
#[derive(Debug)]
pub struct GlobPattern {
    source: String,
    compiled: Pattern,
}

impl View for GlobPattern {
    type V = Seq<char>;

    closed spec fn view(&self) -> Seq<char> {
        self.source@
    }
}

/// Matches `text` against a compiled pattern with `glob_sl::Pattern::matches_with`,
/// all match options at their defaults but `case_sensitive`. The contract
/// claims that the answer depends only on the pattern's text, the text
/// matched and the case switch; it relies on `GlobPattern::new` being the
/// only constructor, which compiles exactly the text it keeps.
#[verifier::external_body]
fn glob_matches_with(pattern: &GlobPattern, text: &str, case_sensitive: bool) -> (r: bool)
    ensures
        r == glob_match(pattern@, text@, case_sensitive),
{
    pattern.compiled.matches_with(text, MatchOptions { case_sensitive, ..MatchOptions::new() })
}

impl GlobPattern {
    /// Compiles `pattern`; the error carries the text of the syntax error.
    pub fn new(pattern: &str) -> (r: Result<GlobPattern, String>)
        ensures
            r is Ok <==> glob_compile_error(pattern@) is None,
            r matches Ok(p) ==> p@ == pattern@,
            r matches Err(m) ==> glob_compile_error(pattern@) == Some(m@),
    {
        match compile_glob(pattern) {
            Ok(compiled) => Ok(GlobPattern { source: pattern.to_owned(), compiled }),
            Err(m) => Err(m),
        }
    }

    /// The text the pattern was compiled from.
    pub fn as_str(&self) -> (r: &str)
        ensures
            r@ == self@,
    {
        self.source.as_str()
    }
}

/// The texts of a list of patterns.
pub open spec fn sources(v: Seq<GlobPattern>) -> Seq<Seq<char>> {
    v.map_values(|p: GlobPattern| p@)
}

/// The texts of a list of strings.
pub open spec fn texts(v: Seq<String>) -> Seq<Seq<char>> {
    v.map_values(|s: String| s@)
}

/// The patterns an optional list gives; none when it is absent.
pub open spec fn patterns_of(list: Option<Vec<String>>) -> Seq<String> {
    match list {
        Some(v) => v@,
        None => Seq::empty(),
    }
}

/// The error of the first pattern in `list` that does not compile.
pub open spec fn first_error(list: Seq<String>) -> Option<Seq<char>>
    decreases list.len(),
{
    if list.len() == 0 {
        None
    } else if glob_compile_error(list[0]@) is Some {
        glob_compile_error(list[0]@)
    } else {
        first_error(list.drop_first())
    }
}

/// Which list of patterns a filter error belongs to.
#[derive(Debug, Clone, Copy, PartialEq, Eq, Structural)]
pub enum PatternList {
    DirInclude,
    DirExclude,
    FileInclude,
    FileExclude,
}

/// A pattern that did not compile: the list it stood in and the text of
/// the syntax error.
#[derive(Debug, Clone)]
pub struct FilterError {
    pub list: PatternList,
    pub message: String,
}

/// The compiled include and exclude patterns of a scan.
#[derive(Debug)]
pub struct Filter {
    pub dir_include: Vec<GlobPattern>,
    pub dir_exclude: Vec<GlobPattern>,
    pub file_include: Vec<GlobPattern>,
    pub file_exclude: Vec<GlobPattern>,
    pub case_sensitive: bool,
}

/// Compiles every pattern of an optional list, stopping at the first that
/// does not compile.
fn compile_list(list: &Option<Vec<String>>) -> (r: Result<Vec<GlobPattern>, String>)
    ensures
        r is Ok <==> first_error(patterns_of(*list)) is None,
        r matches Ok(v) ==> sources(v@) == texts(patterns_of(*list)),
        r matches Err(m) ==> first_error(patterns_of(*list)) == Some(m@),
{
    let mut out: Vec<GlobPattern> = Vec::new();
    match list {
        None => {
            assert(sources(out@) =~= texts(patterns_of(*list)));
            Ok(out)
        },
        Some(v) => {
            let ghost l = v@;
            assert(l.subrange(0, l.len() as int) =~= l);
            for i in 0..v.len()
                invariant
                    l == v@,
                    l == patterns_of(*list),
                    first_error(l) == first_error(l.subrange(i as int, l.len() as int)),
                    out@.len() == i,
                    forall|k: int| 0 <= k < i ==> (#[trigger] out@[k])@ == l[k]@,
            {
                let ghost rest = l.subrange(i as int, l.len() as int);
                assert(rest[0] == l[i as int]);
                assert(rest.drop_first() =~= l.subrange(i + 1, l.len() as int));
                match GlobPattern::new(v[i].as_str()) {
                    Ok(p) => {
                        out.push(p);
                    },
                    Err(m) => {
                        return Err(m);
                    },
                }
            }
            assert(l.subrange(l.len() as int, l.len() as int) =~= Seq::<String>::empty());
            assert(sources(out@) =~= texts(l));
            Ok(out)
        },
    }
}

/// The lists of a filter, compiled from the patterns of `o`.
pub open spec fn filter_made_from(f: Filter, o: Options) -> bool {
    &&& sources(f.dir_include@) == texts(patterns_of(o.dir_include))
    &&& sources(f.dir_exclude@) == texts(patterns_of(o.dir_exclude))
    &&& sources(f.file_include@) == texts(patterns_of(o.file_include))
    &&& sources(f.file_exclude@) == texts(patterns_of(o.file_exclude))
    &&& f.case_sensitive == o.case_sensitive
}

/// Whether the options name no pattern at all.
pub open spec fn no_patterns(o: Options) -> bool {
    &&& patterns_of(o.dir_include).len() == 0
    &&& patterns_of(o.dir_exclude).len() == 0
    &&& patterns_of(o.file_include).len() == 0
    &&& patterns_of(o.file_exclude).len() == 0
}

/// The first list, in the order directory include, directory exclude, file
/// include, file exclude, that holds a pattern which does not compile, with
/// that pattern's error.
pub open spec fn options_error(o: Options) -> Option<(PatternList, Seq<char>)> {
    if first_error(patterns_of(o.dir_include)) is Some {
        Some((PatternList::DirInclude, first_error(patterns_of(o.dir_include))->0))
    } else if first_error(patterns_of(o.dir_exclude)) is Some {
        Some((PatternList::DirExclude, first_error(patterns_of(o.dir_exclude))->0))
    } else if first_error(patterns_of(o.file_include)) is Some {
        Some((PatternList::FileInclude, first_error(patterns_of(o.file_include))->0))
    } else if first_error(patterns_of(o.file_exclude)) is Some {
        Some((PatternList::FileExclude, first_error(patterns_of(o.file_exclude))->0))
    } else {
        None
    }
}

/// Compiles the include and exclude patterns of `options`. No filter is
/// needed when no list holds a pattern.
pub fn create_filter(options: &Options) -> (r: Result<Option<Filter>, FilterError>)
    ensures
        r is Err <==> options_error(*options) is Some,
        r matches Err(e) ==> options_error(*options) == Some((e.list, e.message@)),
        r matches Ok(None) ==> no_patterns(*options),
        r matches Ok(Some(f)) ==> !no_patterns(*options) && filter_made_from(f, *options),
        options_error(*options) is None && no_patterns(*options) ==> r matches Ok(None),
{
    let dir_include = match compile_list(&options.dir_include) {
        Ok(v) => v,
        Err(message) => return Err(FilterError { list: PatternList::DirInclude, message }),
    };
    let dir_exclude = match compile_list(&options.dir_exclude) {
        Ok(v) => v,
        Err(message) => return Err(FilterError { list: PatternList::DirExclude, message }),
    };
    let file_include = match compile_list(&options.file_include) {
        Ok(v) => v,
        Err(message) => return Err(FilterError { list: PatternList::FileInclude, message }),
    };
    let file_exclude = match compile_list(&options.file_exclude) {
        Ok(v) => v,
        Err(message) => return Err(FilterError { list: PatternList::FileExclude, message }),
    };
    assert(sources(dir_include@).len() == dir_include@.len());
    assert(sources(dir_exclude@).len() == dir_exclude@.len());
    assert(sources(file_include@).len() == file_include@.len());
    assert(sources(file_exclude@).len() == file_exclude@.len());
    assert(texts(patterns_of(options.dir_include)).len() == patterns_of(options.dir_include).len());
    assert(texts(patterns_of(options.dir_exclude)).len() == patterns_of(options.dir_exclude).len());
    assert(texts(patterns_of(options.file_include)).len() == patterns_of(options.file_include).len());
    assert(texts(patterns_of(options.file_exclude)).len() == patterns_of(options.file_exclude).len());
    if dir_include.is_empty() && dir_exclude.is_empty() && file_include.is_empty()
        && file_exclude.is_empty() {
        return Ok(None);
    }
    Ok(
        Some(
            Filter {
                dir_include,
                dir_exclude,
                file_include,
                file_exclude,
                case_sensitive: options.case_sensitive,
            },
        ),
    )
}

/// Whether `s` ends with the two characters `**`.
pub open spec fn ends_with_double_star(s: Seq<char>) -> bool {
    s.len() >= 2 && s[s.len() - 1] == '*' && s[s.len() - 2] == '*'
}

/// Whether `s` ends with the separator `/`.
pub open spec fn ends_with_slash(s: Seq<char>) -> bool {
    s.len() > 0 && s.last() == '/'
}

/// One pattern hits a key when it matches the key, or, for a pattern that
/// ends in `**`, the key with a separator appended (so that `foo/**` takes
/// in `foo` itself).
pub open spec fn pattern_hits(pattern: Seq<char>, key: Seq<char>, case_sensitive: bool) -> bool {
    ||| (ends_with_double_star(pattern) && !ends_with_slash(key) && glob_match(
        pattern,
        key + seq!['/'],
        case_sensitive,
    ))
    ||| glob_match(pattern, key, case_sensitive)
}

/// The answer of a pattern list for a key: `empty` when the list or the key
/// is empty, otherwise whether some pattern hits the key.
pub open spec fn spec_filter_direntry(
    key: Seq<char>,
    patterns: Seq<Seq<char>>,
    case_sensitive: bool,
    empty: bool,
) -> bool {
    if patterns.len() == 0 || key.len() == 0 {
        empty
    } else {
        exists|i: int| 0 <= i < patterns.len() && pattern_hits(patterns[i], key, case_sensitive)
    }
}

proof fn lemma_ascii_last_byte(c: u32, b: u8)
    requires
        is_scalar(c),
        b < 0x80,
    ensures
        encode_scalar(c).len() > 0,
        (encode_scalar(c).last() == b) <==> (c == b as u32),
{
    if has_width_1_encoding(c) {
        assert((c & 0x7F) as u8 == b <==> c == b as u32) by (bit_vector)
            requires
                c <= 0x7F,
                b < 0x80,
        ;
    } else {
        assert((0x80u8 | (c & 0x3F) as u8) != b) by (bit_vector)
            requires
                b < 0x80,
        ;
    }
}

/// How the encoding of a non-empty text ends.
proof fn lemma_encode_last(s: Seq<char>)
    requires
        s.len() > 0,
    ensures
        encode_utf8(s) == encode_utf8(s.drop_last()) + encode_scalar(s.last() as u32),
{
    let init = s.drop_last();
    let c = s.last();
    assert(s =~= init + seq![c]);
    lemma_encode_utf8_concat(init, seq![c]);
    let one = seq![c];
    assert(one[0] == c);
    assert(one.drop_first() =~= Seq::<char>::empty());
    assert(encode_utf8(one.drop_first()) =~= Seq::<u8>::empty());
    assert(encode_utf8(one) =~= encode_scalar(c as u32));
}

/// The last byte of an encoding is a given ASCII byte exactly when the last
/// character is that ASCII character.
proof fn lemma_last_byte_ascii(s: Seq<char>, b: u8)
    requires
        s.len() > 0,
        b < 0x80,
    ensures
        encode_utf8(s).len() > 0,
        (encode_utf8(s).last() == b) <==> ((s.last() as u32) == b as u32),
{
    lemma_encode_last(s);
    char_is_scalar(s.last());
    lemma_ascii_last_byte(s.last() as u32, b);
}

proof fn lemma_star(c: char)
    ensures
        (c == '*') <==> ((c as u32) == 0x2Au32),
{
    char_u32_cast(c, c as u32);
    char_u32_cast('*', '*' as u32);
    assert(('*' as u32) == 0x2Au32);
}

proof fn lemma_encode_len_at_least(s: Seq<char>)
    ensures
        encode_utf8(s).len() >= s.len(),
    decreases s.len(),
{
    if s.len() > 0 {
        lemma_encode_utf8_concat(seq![s[0]], s.drop_first());
        lemma_encode_len_at_least(s.drop_first());
        char_is_scalar(s[0]);
        assert(encode_scalar(s[0] as u32).len() >= 1);
    }
}

/// Whether `s` ends with `**`.
fn ends_with_two_stars(s: &str) -> (r: bool)
    ensures
        r == ends_with_double_star(s@),
{
    let b = s.as_bytes();
    let n = b.len();
    if n < 2 {
        proof {
            lemma_encode_len_at_least(s@);
        }
        return false;
    }
    let last_star = b[n - 1] == 0x2Au8;
    let prev_star = b[n - 2] == 0x2Au8;
    proof {
        let chars = s@;
        let bytes = encode_utf8(chars);
        assert(chars.len() > 0) by {
            if chars.len() == 0 {
                assert(bytes =~= Seq::<u8>::empty());
            }
        }
        lemma_last_byte_ascii(chars, 0x2Au8);
        lemma_star(chars.last());
        let init = chars.drop_last();
        lemma_encode_last(chars);
        char_is_scalar(chars.last());
        if chars.last() == '*' {
            // the last character takes one byte, the one before ends `init`
            assert(encode_scalar(chars.last() as u32) =~= seq![0x2Au8]);
            assert(encode_utf8(init).len() == n - 1);
            if init.len() == 0 {
                assert(encode_utf8(init) =~= Seq::<u8>::empty());
            } else {
                lemma_last_byte_ascii(init, 0x2Au8);
                lemma_star(init.last());
                assert(bytes[n - 2] == encode_utf8(init).last());
                assert(init.last() == chars[chars.len() - 2]);
            }
        }
    }
    last_star && prev_star
}

/// Tells whether a key passes a pattern list: `empty` when the list or the
/// key is empty, otherwise whether some pattern hits the key.
pub fn filter_direntry(key: &str, filter: &Vec<GlobPattern>, case_sensitive: bool, empty: bool) -> (r:
    bool)
    ensures
        r == spec_filter_direntry(key@, sources(filter@), case_sensitive, empty),
{
    if filter.len() == 0 || key.is_empty() {
        return empty;
    }
    let key_ends_slash = ends_with_separator(key);
    let mut key_slash = key.to_owned();
    let sep = "/";
    proof {
        reveal_strlit("/");
    }
    key_slash.append(sep);
    for i in 0..filter.len()
        invariant
            key_ends_slash == ends_with_slash(key@),
            key_slash@ == key@ + seq!['/'],
            key@.len() > 0,
            filter@.len() > 0,
            forall|j: int|
                0 <= j < i ==> !pattern_hits(#[trigger] sources(filter@)[j], key@, case_sensitive),
    {
        let f = &filter[i];
        if ends_with_two_stars(f.as_str()) && !key_ends_slash {
            if glob_matches_with(f, key_slash.as_str(), case_sensitive) {
                assert(pattern_hits(sources(filter@)[i as int], key@, case_sensitive));
                return true;
            }
        }
        if glob_matches_with(f, key, case_sensitive) {
            assert(pattern_hits(sources(filter@)[i as int], key@, case_sensitive));
            return true;
        }
    }
    false
}

/// The key of a directory: its path, joined from parent and name, after the
/// first `root_path_len` bytes, or empty when the cut is not possible.
pub open spec fn dir_key(root_path_len: int, parent_path: Seq<char>, file_name: Seq<char>) -> Seq<
    char,
> {
    match spec_suffix_from(spec_path_join(parent_path, file_name), root_path_len) {
        Some(k) => k,
        None => Seq::empty(),
    }
}

/// A directory passes when no exclude pattern hits its key and, if there are
/// include patterns, one of them hits it.
pub open spec fn spec_filter_dir(root_path_len: int, parent_path: Seq<char>, file_name: Seq<char>, f: Filter) -> bool {
    let key = dir_key(root_path_len, parent_path, file_name);
    !spec_filter_direntry(key, sources(f.dir_exclude@), f.case_sensitive, false)
        && spec_filter_direntry(key, sources(f.dir_include@), f.case_sensitive, true)
}

/// A file (any entry that is not a directory) passes when no exclude pattern
/// hits its name and, if there are include patterns, one of them hits it.
pub open spec fn spec_filter_file(file_name: Seq<char>, f: Filter) -> bool {
    !spec_filter_direntry(file_name, sources(f.file_exclude@), f.case_sensitive, false)
        && spec_filter_direntry(file_name, sources(f.file_include@), f.case_sensitive, true)
}

/// Whether the directory `file_name` inside `parent_path` passes the filter.
pub fn filter_dir(root_path_len: usize, parent_path: &str, file_name: &str, filter_ref: &Filter) -> (r:
    bool)
    ensures
        r == spec_filter_dir(root_path_len as int, parent_path@, file_name@, *filter_ref),
{
    let full = path_join(parent_path, file_name);
    let empty = "";
    proof {
        reveal_strlit("");
    }
    let key: &str = match str_suffix_from(full.as_str(), root_path_len) {
        Some(k) => k,
        None => empty,
    };
    if filter_direntry(key, &filter_ref.dir_exclude, filter_ref.case_sensitive, false) {
        return false;
    } else if !filter_direntry(key, &filter_ref.dir_include, filter_ref.case_sensitive, true) {
        return false;
    }
    true
}

/// Whether the file `file_name` passes the filter.
pub fn filter_file(file_name: &str, filter_ref: &Filter) -> (r: bool)
    ensures
        r == spec_filter_file(file_name@, *filter_ref),
{
    if filter_direntry(file_name, &filter_ref.file_exclude, filter_ref.case_sensitive, false) {
        return false;
    } else if !filter_direntry(file_name, &filter_ref.file_include, filter_ref.case_sensitive, true) {
        return false;
    }
    true
}

/// What the filter reads of one child of a directory.
#[derive(Debug, Clone)]
pub struct ChildInfo {
    pub is_dir: bool,
    pub parent_path: String,
    pub file_name: String,
}

/// Whether a child stays: an unreadable child (`None`) never does, a
/// directory by the directory lists, anything else by the file lists.
pub open spec fn child_kept(info: Option<ChildInfo>, f: Filter, root_path_len: int) -> bool {
    match info {
        None => false,
        Some(c) => if c.is_dir {
            spec_filter_dir(root_path_len, c.parent_path@, c.file_name@, f)
        } else {
            spec_filter_file(c.file_name@, f)
        },
    }
}

/// The elements of `s` whose flag in `keep` is set, in order.
pub open spec fn select<T>(s: Seq<T>, keep: Seq<bool>) -> Seq<T>
    decreases s.len(),
{
    if s.len() == 0 {
        Seq::empty()
    } else {
        let rest = select(s.drop_last(), keep.subrange(0, s.len() - 1));
        if keep[s.len() - 1] {
            rest.push(s.last())
        } else {
            rest
        }
    }
}

proof fn lemma_select_step<T>(s: Seq<T>, keep: Seq<bool>, i: int)
    requires
        0 <= i < s.len(),
        s.len() == keep.len(),
    ensures
        select(s.subrange(0, i + 1), keep.subrange(0, i + 1)) == if keep[i] {
            select(s.subrange(0, i), keep.subrange(0, i)).push(s[i])
        } else {
            select(s.subrange(0, i), keep.subrange(0, i))
        },
{
    let s1 = s.subrange(0, i + 1);
    let k1 = keep.subrange(0, i + 1);
    assert(s1.drop_last() =~= s.subrange(0, i));
    assert(k1.subrange(0, i) =~= keep.subrange(0, i));
}

/// Keeps exactly the elements of `items` whose flag in `keep` is set.
pub fn retain_by_mask<T>(items: &mut Vec<T>, keep: &Vec<bool>)
    requires
        old(items)@.len() == keep@.len(),
    ensures
        final(items)@ == select(old(items)@, keep@),
{
    let ghost orig = items@;
    let n = items.len();
    let mut rev: Vec<T> = Vec::new();
    while items.len() > 0
        invariant
            n == orig.len(),
            items@.len() <= n,
            items@ == orig.subrange(0, items@.len() as int),
            rev@ == orig.subrange(items@.len() as int, n as int).reverse(),
        decreases items@.len(),
    {
        let x = items.pop().unwrap();
        rev.push(x);
        assert(items@ =~= orig.subrange(0, items@.len() as int));
        assert(rev@ =~= orig.subrange(items@.len() as int, n as int).reverse());
    }
    let mut i: usize = 0;
    assert(select(orig.subrange(0, 0), keep@.subrange(0, 0)) =~= Seq::<T>::empty());
    while rev.len() > 0
        invariant
            n == orig.len(),
            n == keep@.len(),
            i + rev@.len() == n,
            rev@ == orig.subrange(i as int, n as int).reverse(),
            items@ == select(orig.subrange(0, i as int), keep@.subrange(0, i as int)),
        decreases rev@.len(),
    {
        let x = rev.pop().unwrap();
        proof {
            lemma_select_step(orig, keep@, i as int);
        }
        if keep[i] {
            items.push(x);
        }
        i = i + 1;
        assert(rev@ =~= orig.subrange(i as int, n as int).reverse());
    }
    assert(orig.subrange(0, n as int) =~= orig);
    assert(keep@.subrange(0, n as int) =~= keep@);
}

/// Drops the children that do not pass the filter; with no filter every
/// child stays. `infos[i]` describes `children[i]`, `None` for a child that
/// could not be read.
pub fn filter_children<T>(
    children: &mut Vec<T>,
    infos: &Vec<Option<ChildInfo>>,
    filter: &Option<Filter>,
    root_path_len: usize,
)
    requires
        old(children)@.len() == infos@.len(),
    ensures
        filter is None ==> final(children)@ == old(children)@,
        filter matches Some(f) ==> final(children)@ == select(
            old(children)@,
            infos@.map_values(|c: Option<ChildInfo>| child_kept(c, *f, root_path_len as int)),
        ),
{
    if let Some(filter_ref) = filter {
        let mut keep: Vec<bool> = Vec::new();
        for i in 0..infos.len()
            invariant
                keep@ == infos@.subrange(0, i as int).map_values(
                    |c: Option<ChildInfo>| child_kept(c, *filter_ref, root_path_len as int),
                ),
        {
            let k = match &infos[i] {
                None => false,
                Some(c) => if c.is_dir {
                    filter_dir(root_path_len, c.parent_path.as_str(), c.file_name.as_str(), filter_ref)
                } else {
                    filter_file(c.file_name.as_str(), filter_ref)
                },
            };
            keep.push(k);
            assert(keep@ =~= infos@.subrange(0, i + 1).map_values(
                |c: Option<ChildInfo>| child_kept(c, *filter_ref, root_path_len as int),
            ));
        }
        assert(infos@.subrange(0, infos@.len() as int) =~= infos@);
        retain_by_mask(children, &keep);
    }
}

/// Whether the children of `root_dir` are filtered: only when the directory
/// path is text and reaches at least as far as the root path.
pub fn filter_applies(root_dir: Option<&str>, root_path_len: usize) -> (r: bool)
    ensures
        r == (root_dir matches Some(d) && d.len() + 1 >= root_path_len),
{
    match root_dir {
        None => false,
        Some(d) => d.len() as u128 + 1 >= root_path_len as u128,
    }
}

/// A directory that an exclude pattern hits is dropped, whatever the
/// include patterns say.
pub proof fn law_dir_exclude_wins(
    root_path_len: int,
    parent_path: Seq<char>,
    file_name: Seq<char>,
    f: Filter,
    i: int,
)
    requires
        0 <= i < f.dir_exclude@.len(),
        dir_key(root_path_len, parent_path, file_name).len() > 0,
        pattern_hits(
            f.dir_exclude@[i]@,
            dir_key(root_path_len, parent_path, file_name),
            f.case_sensitive,
        ),
    ensures
        !spec_filter_dir(root_path_len, parent_path, file_name, f),
{
    assert(sources(f.dir_exclude@)[i] == f.dir_exclude@[i]@);
}

/// A file that an exclude pattern hits is dropped, whatever the include
/// patterns say.
pub proof fn law_file_exclude_wins(file_name: Seq<char>, f: Filter, i: int)
    requires
        0 <= i < f.file_exclude@.len(),
        file_name.len() > 0,
        pattern_hits(f.file_exclude@[i]@, file_name, f.case_sensitive),
    ensures
        !spec_filter_file(file_name, f),
{
    assert(sources(f.file_exclude@)[i] == f.file_exclude@[i]@);
}

/// Lists without patterns let everything through: with no directory
/// patterns every directory stays, with no file patterns every file stays.
pub proof fn law_empty_lists_pass(
    root_path_len: int,
    parent_path: Seq<char>,
    file_name: Seq<char>,
    f: Filter,
)
    ensures
        f.dir_include@.len() == 0 && f.dir_exclude@.len() == 0 ==> spec_filter_dir(
            root_path_len,
            parent_path,
            file_name,
            f,
        ),
        f.file_include@.len() == 0 && f.file_exclude@.len() == 0 ==> spec_filter_file(
            file_name,
            f,
        ),
{
}

/// A name that no include pattern hits is dropped when there are include
/// patterns.
pub proof fn law_file_include_required(file_name: Seq<char>, f: Filter)
    requires
        f.file_include@.len() > 0,
        file_name.len() > 0,
        forall|i: int|
            0 <= i < f.file_include@.len() ==> !pattern_hits(
                #[trigger] f.file_include@[i]@,
                file_name,
                f.case_sensitive,
            ),
    ensures
        !spec_filter_file(file_name, f),
{
    assert forall|i: int| 0 <= i < sources(f.file_include@).len() implies !pattern_hits(
        sources(f.file_include@)[i],
        file_name,
        f.case_sensitive,
    ) by {
        assert(sources(f.file_include@)[i] == f.file_include@[i]@);
    }
}

/// The key of a directory right below the root is its own name: the root
/// length, counted with its separator, cuts exactly the root away.
pub proof fn law_key_below_root_is_name(root: Seq<char>, name: Seq<char>)
    requires
        needs_separator(root),
        !is_absolute_path(name),
    ensures
        dir_key(utf8_len(root) + 1int, root, name) == name,
{
    lemma_relative_key_is_name(root, name);
}

/// No exclude pattern hits `key`, neither as it is nor with a separator
/// appended.
pub open spec fn no_pattern_matches(patterns: Seq<GlobPattern>, key: Seq<char>, case_sensitive: bool) -> bool {
    forall|j: int|
        0 <= j < patterns.len() ==> !glob_match(#[trigger] patterns[j]@, key, case_sensitive)
            && !glob_match(patterns[j]@, key + seq!['/'], case_sensitive)
}

/// A directory that an include pattern matches, and no exclude pattern, is
/// kept.
pub proof fn law_dir_include_match_kept(
    root_path_len: int,
    parent_path: Seq<char>,
    file_name: Seq<char>,
    f: Filter,
    i: int,
)
    requires
        0 <= i < f.dir_include@.len(),
        dir_key(root_path_len, parent_path, file_name).len() > 0,
        glob_match(f.dir_include@[i]@, dir_key(root_path_len, parent_path, file_name), f.case_sensitive),
        no_pattern_matches(f.dir_exclude@, dir_key(root_path_len, parent_path, file_name), f.case_sensitive),
    ensures
        spec_filter_dir(root_path_len, parent_path, file_name, f),
{
    assert(sources(f.dir_include@)[i] == f.dir_include@[i]@);
    let key = dir_key(root_path_len, parent_path, file_name);
    assert forall|j: int| 0 <= j < sources(f.dir_exclude@).len() implies !pattern_hits(
        #[trigger] sources(f.dir_exclude@)[j],
        key,
        f.case_sensitive,
    ) by {
        assert(sources(f.dir_exclude@)[j] == f.dir_exclude@[j]@);
    }
}

/// A pattern ending in `**` takes in the directory itself: a directory
/// whose key, with a separator appended, an include pattern such as
/// `foo/**` matches (`foo/` for the directory `foo`) is kept when no
/// exclude pattern matches, so its subtree is scanned.
pub proof fn law_double_star_keeps_the_directory(
    root_path_len: int,
    parent_path: Seq<char>,
    file_name: Seq<char>,
    f: Filter,
    i: int,
)
    requires
        0 <= i < f.dir_include@.len(),
        f.dir_include@[i]@.len() >= 2,
        f.dir_include@[i]@[f.dir_include@[i]@.len() - 1] == '*',
        f.dir_include@[i]@[f.dir_include@[i]@.len() - 2] == '*',
        dir_key(root_path_len, parent_path, file_name).len() > 0,
        dir_key(root_path_len, parent_path, file_name).last() != '/',
        glob_match(
            f.dir_include@[i]@,
            dir_key(root_path_len, parent_path, file_name) + seq!['/'],
            f.case_sensitive,
        ),
        no_pattern_matches(f.dir_exclude@, dir_key(root_path_len, parent_path, file_name), f.case_sensitive),
    ensures
        spec_filter_dir(root_path_len, parent_path, file_name, f),
{
    assert(sources(f.dir_include@)[i] == f.dir_include@[i]@);
    let key = dir_key(root_path_len, parent_path, file_name);
    assert forall|j: int| 0 <= j < sources(f.dir_exclude@).len() implies !pattern_hits(
        #[trigger] sources(f.dir_exclude@)[j],
        key,
        f.case_sensitive,
    ) by {
        assert(sources(f.dir_exclude@)[j] == f.dir_exclude@[j]@);
    }
}

/// The same for files: a name that an include pattern matches (as it is,
/// or, for a pattern ending in `**`, with a separator appended), and no
/// exclude pattern, is kept.
pub proof fn law_file_include_match_kept(file_name: Seq<char>, f: Filter, i: int)
    requires
        0 <= i < f.file_include@.len(),
        file_name.len() > 0,
        glob_match(f.file_include@[i]@, file_name, f.case_sensitive) || (f.file_include@[i]@.len()
            >= 2 && f.file_include@[i]@[f.file_include@[i]@.len() - 1] == '*'
            && f.file_include@[i]@[f.file_include@[i]@.len() - 2] == '*' && file_name.last() != '/'
            && glob_match(f.file_include@[i]@, file_name + seq!['/'], f.case_sensitive)),
        no_pattern_matches(f.file_exclude@, file_name, f.case_sensitive),
    ensures
        spec_filter_file(file_name, f),
{
    assert(sources(f.file_include@)[i] == f.file_include@[i]@);
    assert forall|j: int| 0 <= j < sources(f.file_exclude@).len() implies !pattern_hits(
        #[trigger] sources(f.file_exclude@)[j],
        file_name,
        f.case_sensitive,
    ) by {
        assert(sources(f.file_exclude@)[j] == f.file_exclude@[j]@);
    }
}

} // verus!
