//! What the lookups of icons and the writing of temporary images compute and
//! decide, apart from what they read and write.

use crate::markup::parser::match_literal;
use crate::text::{chars_of, string_of};
use rand::distributions::Alphanumeric;
use rand::Rng;
use vstd::prelude::*;
use vstd::slice::slice_subrange;

verus! {

/// The text without any occurrence of `pat`: occurrences are taken out from
/// left to right, and what is left is not searched again.
pub open spec fn without(s: Seq<char>, pat: Seq<char>) -> Seq<char>
    decreases s.len(),
{
    if s.len() == 0 || pat.len() == 0 {
        s
    } else if pat.is_prefix_of(s) {
        without(s.skip(pat.len() as int), pat)
    } else {
        seq![s[0]] + without(s.drop_first(), pat)
    }
}

/// The path that an icon's name may stand for: the name without the scheme
/// `file://`, wherever it occurs. Paths should begin with the scheme, but
/// many are given without it.
pub fn icon_path_candidate(icon_name_or_path: &str) -> (path: String)
    ensures
        path@ == without(icon_name_or_path@, "file://"@),
{
    let input = chars_of(icon_name_or_path);
    let scheme = chars_of("file://");
    let mut kept: Vec<char> = Vec::new();
    let mut i: usize = 0;
    proof {
        reveal_strlit("file://");
        assert(input@.skip(0) == input@);
    }
    while i < input.len()
        invariant
            i <= input.len(),
            scheme@ == "file://"@,
            scheme@.len() == 7,
            without(input@, scheme@) == kept@ + without(input@.skip(i as int), scheme@),
        decreases input.len() - i,
    {
        let rest = slice_subrange(input.as_slice(), i, input.len());
        match match_literal(rest, scheme.as_slice()) {
            Ok(n) => {
                assert(rest@.skip(n as int) == input@.skip(i + n));
                i += n;
            },
            Err(_) => {
                assert(rest@.drop_first() == input@.skip(i + 1));
                assert(kept@.push(input@[i as int]) + without(input@.skip(i + 1), scheme@)
                    == kept@ + (seq![rest@[0]] + without(rest@.drop_first(), scheme@)));
                kept.push(input[i]);
                i += 1;
            },
        }
    }
    assert(kept@ + without(input@.skip(i as int), scheme@) == kept@);
    string_of(kept.as_slice())
}

/// The icon for a name that may be a path: the path itself where a file is
/// there, else the scalable icon of that name, and else the one of a fixed
/// size.
pub open spec fn icon_choice<T>(
    path: T,
    exists: bool,
    scalable: Option<T>,
    sized: Option<T>,
) -> Option<T> {
    if exists {
        Some(path)
    } else {
        match scalable {
            Some(icon) => Some(icon),
            None => sized,
        }
    }
}

/// The icon for a name that may be a path.
pub fn first_icon<T>(path: T, exists: bool, scalable: Option<T>, sized: Option<T>) -> (icon:
    Option<T>)
    ensures
        icon == icon_choice(path, exists, scalable, sized),
{
    if exists {
        Some(path)
    } else {
        match scalable {
            Some(icon) => Some(icon),
            None => sized,
        }
    }
}

/// The name of the icon theme in which icons are looked up.
pub fn icon_theme() -> (theme: &'static str)
    ensures
        theme@ == "Gruvbox-Plus-Dark"@,
{
    "Gruvbox-Plus-Dark"
}

/// The size in which an icon is looked up that is not scalable.
pub const ICON_SIZE: u16 = 100;

/// A letter of the Latin alphabet or a digit.
pub open spec fn is_alphanumeric(c: char) -> bool {
    ('A' <= c && c <= 'Z') || ('a' <= c && c <= 'z') || ('0' <= c && c <= '9')
}

/// One letter or digit, drawn by rand's `Alphanumeric` from the generator of
/// the thread. Which one it is, chance decides: two calls may differ. rand
/// draws it from the 26 capital letters, the 26 small letters and the 10
/// digits.
#[verifier::external_body]
fn random_alphanumeric() -> (c: char)
    ensures
        is_alphanumeric(c),
{
    char::from(rand::thread_rng().sample(Alphanumeric))
}

/// How many characters the name of a temporary file has.
pub const TMP_NAME_LENGTH: usize = 8;

/// A name for a temporary file, made of letters and digits drawn by chance.
pub fn random_name() -> (name: String)
    ensures
        name@.len() == TMP_NAME_LENGTH,
        forall|i: int| 0 <= i < name@.len() ==> is_alphanumeric(#[trigger] name@[i]),
{
    let mut name = String::new();
    let mut i: usize = 0;
    while i < TMP_NAME_LENGTH
        invariant
            i <= TMP_NAME_LENGTH,
            name@.len() == i,
            forall|k: int| 0 <= k < name@.len() ==> is_alphanumeric(#[trigger] name@[k]),
        decreases TMP_NAME_LENGTH - i,
    {
        name.push(random_alphanumeric());
        i += 1;
    }
    name
}

/// How often a free name for a temporary file is looked for.
pub const TMP_PATH_TRIES: u32 = 3;

/// What to do after a name for a temporary file was tried.
#[derive(Debug, Clone, Copy, PartialEq, Eq)]
pub enum TmpPathStep {
    /// The path is free: it is used.
    Use,
    /// The path is taken: another name is tried.
    Retry,
    /// The path is taken, and enough names were tried: none is used.
    GiveUp,
}

/// What to do after the name of number `tries` was tried, counting from one,
/// where `free` says whether no file of that name is known to be there.
pub fn tmp_path_step(tries: u32, free: bool) -> (step: TmpPathStep)
    ensures
        step == if free {
            TmpPathStep::Use
        } else if tries < TMP_PATH_TRIES {
            TmpPathStep::Retry
        } else {
            TmpPathStep::GiveUp
        },
{
    if free {
        TmpPathStep::Use
    } else if tries < TMP_PATH_TRIES {
        TmpPathStep::Retry
    } else {
        TmpPathStep::GiveUp
    }
}

/// The path of the temporary image file with the given name.
pub fn tmp_path_for(name: &str) -> (path: String)
    ensures
        path@ == "/tmp/"@ + name@ + ".png"@,
{
    let mut path = "/tmp/".to_owned();
    path.append(name);
    path.append(".png");
    path
}

} // verus!
