//! Which files are images, going by the extension of their name.
//!
//! The extension is compared as a whole, and without regard to the case of
//! ASCII letters, with each of a fixed set of extensions. The comparison is
//! left to an Aho-Corasick automaton that looks for its needles at the start
//! of a text: an extension is supported if a needle is found there that is
//! as long as the extension.

use vstd::prelude::*;
use vstd::string::*;
use vstd::utf8::is_ascii_chars;
use aho_corasick::{AhoCorasick, AhoCorasickBuilder};
use crate::path::{extension, extension_of, lemma_last_component_of_concat, names_a_file};
use crate::text::{ascii_lower, eq_ignore_ascii_case, starts_with_ignore_ascii_case};

verus! {

/// The extensions of the image formats that are sorted, in lower case.
pub open spec fn supported_extensions() -> Seq<Seq<char>> {
    seq!["jpg"@, "jpeg"@, "png"@, "gif"@, "webp"@, "ico"@, "tiff"@, "bmp"@]
}

/// Whether `ext` is one of the supported extensions, in whatever case its
/// letters are.
pub open spec fn is_supported(ext: Seq<char>) -> bool {
    exists|i: int|
        0 <= i < supported_extensions().len() && eq_ignore_ascii_case(
            ext,
            #[trigger] supported_extensions()[i],
        )
}

/// Whether `p` names an image: it has an extension, and a supported one.
pub open spec fn is_image_path(p: Seq<char>) -> bool {
    match extension_of(p) {
        Some(ext) => is_supported(ext),
        None => false,
    }
}

/// An automaton of the crate `aho_corasick`, built by `build_automaton`:
/// with standard match semantics, anchored at the start of the text, and
/// blind to the case of ASCII letters. Nothing of its inside is known here.
#[verifier::external_body]
pub struct Automaton {
    inner: AhoCorasick,
}

/// The needles that an automaton was built from, in the order in which they
/// were given.
pub uninterp spec fn needles(automaton: Automaton) -> Seq<Seq<char>>;

/// Calls `AhoCorasickBuilder::build` of `aho_corasick`, after `dfa`,
/// `ascii_case_insensitive` and `anchored` have been switched on. The claim
/// is that the automaton has the given patterns as its needles, one for one.
/// The patterns have to be ASCII, so that a length in bytes is a length in
/// characters.
#[verifier::external_body]
fn build_automaton(patterns: &Vec<&'static str>) -> (automaton: Automaton)
    requires
        forall|i: int| 0 <= i < patterns.len() ==> is_ascii_chars(#[trigger] patterns[i]@),
    ensures
        needles(automaton) == Seq::new(patterns.len() as nat, |i: int| patterns[i]@),
{
    let inner = AhoCorasickBuilder::new()
        .dfa(true)
        .ascii_case_insensitive(true)
        .anchored(true)
        .build(patterns);
    Automaton { inner }
}

/// Calls `AhoCorasick::find` of `aho_corasick` and hands back the number of
/// the needle that was found and the place where the match ends. The claim,
/// for an ASCII text: a match is reported if and only if some needle stands
/// at the start of the text, the case of ASCII letters ignored; the match
/// that is reported is such a needle, it ends where the needle ends, and no
/// needle that stands at the start of the text is shorter.
#[verifier::external_body]
fn find_at_start(automaton: &Automaton, text: &str) -> (found: Option<(usize, usize)>)
    requires
        is_ascii_chars(text@),
    ensures
        match found {
            Some((needle, end)) => {
                &&& needle < needles(*automaton).len()
                &&& end == needles(*automaton)[needle as int].len()
                &&& starts_with_ignore_ascii_case(text@, needles(*automaton)[needle as int])
                &&& forall|i: int|
                    0 <= i < needles(*automaton).len() && starts_with_ignore_ascii_case(
                        text@,
                        #[trigger] needles(*automaton)[i],
                    ) ==> end <= needles(*automaton)[i].len()
            },
            None => forall|i: int|
                0 <= i < needles(*automaton).len() ==> !starts_with_ignore_ascii_case(
                    text@,
                    #[trigger] needles(*automaton)[i],
                ),
        },
{
    match automaton.inner.find(text) {
        Some(m) => Some((m.pattern(), m.end())),
        None => None,
    }
}

/// Every supported extension is three or four ASCII letters in lower case.
pub proof fn lemma_supported_extensions()
    ensures
        supported_extensions().len() == 8,
        forall|i: int|
            0 <= i < 8 ==> 3 <= (#[trigger] supported_extensions()[i]).len() <= 4
                && is_ascii_chars(supported_extensions()[i]),
        forall|i: int, k: int|
            0 <= i < 8 && 0 <= k < supported_extensions()[i].len() ==> 'a'
                <= #[trigger] supported_extensions()[i][k] <= 'z',
{
    reveal_strlit("jpg");
    reveal_strlit("jpeg");
    reveal_strlit("png");
    reveal_strlit("gif");
    reveal_strlit("webp");
    reveal_strlit("ico");
    reveal_strlit("tiff");
    reveal_strlit("bmp");
}

/// No supported extension is the beginning of a longer one.
proof fn lemma_no_proper_prefix(p: int, q: int)
    requires
        0 <= p < 8,
        0 <= q < 8,
        starts_with_ignore_ascii_case(supported_extensions()[q], supported_extensions()[p]),
    ensures
        supported_extensions()[p].len() == supported_extensions()[q].len(),
{
    reveal_strlit("jpg");
    reveal_strlit("jpeg");
    reveal_strlit("png");
    reveal_strlit("gif");
    reveal_strlit("webp");
    reveal_strlit("ico");
    reveal_strlit("tiff");
    reveal_strlit("bmp");
    let short = supported_extensions()[p];
    let long = supported_extensions()[q];
    if short.len() < long.len() {
        let head = long.subrange(0, short.len() as int);
        assert(ascii_lower(head[0]) == ascii_lower(short[0]));
        assert(ascii_lower(head[1]) == ascii_lower(short[1]));
        assert(ascii_lower(head[2]) == ascii_lower(short[2]));
        assert(false);
    }
}

/// A text that equals an ASCII text, the case of ASCII letters ignored, is
/// ASCII too.
proof fn lemma_ascii_is_kept(a: Seq<char>, b: Seq<char>)
    requires
        eq_ignore_ascii_case(a, b),
        is_ascii_chars(b),
    ensures
        is_ascii_chars(a),
{
    assert forall|i: int| 0 <= i < a.len() implies '\0' <= #[trigger] a[i] <= '\u{7f}' by {
        assert(ascii_lower(a[i]) == ascii_lower(b[i]));
    }
}

/// A file name that is made of a stem, a `.` and a supported extension, in
/// whatever case, names an image in whatever directory it lies; with
/// another extension it names none.
pub proof fn lemma_extension_decides(dir: Seq<char>, stem: Seq<char>, ext: Seq<char>)
    requires
        dir.len() == 0 || dir.last() == '/',
        stem.len() > 0,
        !stem.contains('/'),
        ext.len() > 0,
        !ext.contains('/'),
        !ext.contains('.'),
    ensures
        extension_of(dir + stem + seq!['.'] + ext) == Some(ext),
        is_image_path(dir + stem + seq!['.'] + ext) == is_supported(ext),
{
    let name = stem + seq!['.'] + ext;
    let dot = stem.len() as int;
    assert(dir + stem + seq!['.'] + ext =~= dir + name);
    if name.contains('/') {
        let i = choose|i: int| 0 <= i < name.len() && name[i] == '/';
        if i < dot {
            assert(stem[i] == '/');
        } else if i > dot {
            assert(ext[i - dot - 1] == '/');
        }
        assert(false);
    }
    lemma_last_component_of_concat(dir, name);
    assert(name[dot] == '.');
    assert(names_a_file(name)) by {
        assert(name.len() >= 3);
        assert(seq!['.'].len() == 1);
        assert(seq!['.', '.'].len() == 2);
    }
    name.index_of_last_ensures('.');
    assert(name.contains('.'));
    let last = name.index_of_last('.').unwrap();
    if last > dot {
        assert(ext[last - dot - 1] == '.');
    }
    assert(last >= dot);
    assert(name.subrange(dot + 1, name.len() as int) =~= ext);
}

/// Tells image files from others by their extension. It is built once and
/// used for as many paths as there are.
pub struct ExtensionMatcher {
    automaton: Automaton,
}

impl ExtensionMatcher {
    #[verifier::type_invariant]
    spec fn well_formed(self) -> bool {
        needles(self.automaton) == supported_extensions()
    }

    /// The extensions that this matcher looks for.
    pub closed spec fn extensions(self) -> Seq<Seq<char>> {
        needles(self.automaton)
    }

    /// Builds the matcher for the supported extensions.
    pub fn new() -> (matcher: Self)
        ensures
            matcher.extensions() == supported_extensions(),
    {
        let mut patterns: Vec<&'static str> = Vec::new();
        patterns.push("jpg");
        patterns.push("jpeg");
        patterns.push("png");
        patterns.push("gif");
        patterns.push("webp");
        patterns.push("ico");
        patterns.push("tiff");
        patterns.push("bmp");
        proof {
            lemma_supported_extensions();
            assert(Seq::new(patterns.len() as nat, |i: int| patterns[i]@)
                =~= supported_extensions());
            assert forall|i: int| 0 <= i < patterns.len() implies is_ascii_chars(
                #[trigger] patterns[i]@,
            ) by {
                assert(patterns[i]@ == supported_extensions()[i]);
            }
        }
        ExtensionMatcher { automaton: build_automaton(&patterns) }
    }

    /// Whether `path` has the extension of an image file.
    pub fn is_image(&self, path: &str) -> (b: bool)
        ensures
            b == is_image_path(path@),
    {
        proof {
            use_type_invariant(self);
            lemma_supported_extensions();
        }
        let ext = match extension(path) {
            Some(ext) => ext,
            None => {
                return false;
            },
        };
        if !ext.is_ascii() {
            proof {
                if is_supported(ext@) {
                    let i = choose|i: int|
                        0 <= i < supported_extensions().len() && eq_ignore_ascii_case(
                            ext@,
                            #[trigger] supported_extensions()[i],
                        );
                    lemma_ascii_is_kept(ext@, supported_extensions()[i]);
                }
            }
            return false;
        }
        let len = ext.unicode_len();
        match find_at_start(&self.automaton, ext) {
            Some((needle, end)) => {
                proof {
                    let found = supported_extensions()[needle as int];
                    if end == len {
                        assert(ext@.subrange(0, len as int) =~= ext@);
                    } else if is_supported(ext@) {
                        let i = choose|i: int|
                            0 <= i < supported_extensions().len() && eq_ignore_ascii_case(
                                ext@,
                                #[trigger] supported_extensions()[i],
                            );
                        let whole = supported_extensions()[i];
                        assert(ext@.subrange(0, len as int) =~= ext@);
                        assert(starts_with_ignore_ascii_case(ext@, whole));
                        assert forall|k: int| 0 <= k < end implies ascii_lower(
                            #[trigger] whole.subrange(0, end as int)[k],
                        ) == ascii_lower(found[k]) by {
                            assert(ascii_lower(ext@.subrange(0, end as int)[k]) == ascii_lower(
                                found[k],
                            ));
                            assert(ascii_lower(ext@[k]) == ascii_lower(whole[k]));
                        }
                        assert(starts_with_ignore_ascii_case(whole, found));
                        lemma_no_proper_prefix(needle as int, i);
                    }
                }
                end == len
            },
            None => {
                proof {
                    if is_supported(ext@) {
                        let i = choose|i: int|
                            0 <= i < supported_extensions().len() && eq_ignore_ascii_case(
                                ext@,
                                #[trigger] supported_extensions()[i],
                            );
                        assert(ext@.subrange(0, len as int) =~= ext@);
                        assert(starts_with_ignore_ascii_case(ext@, supported_extensions()[i]));
                    }
                }
                false
            },
        }
    }
}

/// Returns true if the given path has an image file extension.
pub fn has_image_extension(path: &str) -> (b: bool)
    ensures
        b == is_image_path(path@),
{
    ExtensionMatcher::new().is_image(path)
}

} // verus!
