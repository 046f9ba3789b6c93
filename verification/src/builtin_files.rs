//! Files that games expect beside themselves and that the emulator has built in.
//!
//! A built-in file is found by the start and the end of its name, not by all of it: games ask
//! for one component under different names. Only files that the handset really has are built in.
//! A game takes another way for a file that is missing than for one that is empty, so that an
//! empty file must not stand in for a missing one.

use vstd::prelude::*;

verus! {

/// Length of the payment component.
pub const COMPONENT_SIZE: usize = 75341;

/// The character separates directories in a path; games use both kinds.
pub open spec fn is_separator(c: char) -> bool {
    c == '/' || c == '\\'
}

/// The part of a path after the last separator.
pub open spec fn file_name_of(path: Seq<char>) -> Seq<char>
    decreases path.len(),
{
    if path.len() == 0 || is_separator(path.last()) {
        Seq::empty()
    } else {
        file_name_of(path.drop_last()).push(path.last())
    }
}

/// The lower case of a text, as Unicode defines it.
pub uninterp spec fn lowercase(text: Seq<char>) -> Seq<char>;

/// The lower case of an ASCII character.
pub open spec fn ascii_lowercase(c: char) -> char {
    if 'A' <= c <= 'Z' {
        (c as u8 + 32) as char
    } else {
        c
    }
}

/// A text with its ASCII letters in lower case.
pub open spec fn ascii_lowered(text: Seq<char>) -> Seq<char> {
    text.map_values(|c: char| ascii_lowercase(c))
}

/// The upper case of an ASCII character.
pub open spec fn ascii_uppercase(c: char) -> char {
    if 'a' <= c <= 'z' {
        (c as u8 - 32) as char
    } else {
        c
    }
}

/// A text with its ASCII letters in upper case.
pub open spec fn ascii_raised(text: Seq<char>) -> Seq<char> {
    text.map_values(|c: char| ascii_uppercase(c))
}

/// All characters are ASCII.
pub open spec fn all_ascii(text: Seq<char>) -> bool {
    forall|i: int| 0 <= i < text.len() ==> (#[trigger] text[i]) as int <= 0x7f
}

/// `str::to_lowercase`: the lower case of the text as Unicode defines it, which for ASCII text
/// changes the letters A to Z alone. In any text it does not matter whether those letters are in
/// lower case before: a letter and its lower case have the same lower case, and the one rule that
/// looks at a character's neighbours, that of the final sigma, asks only whether they are letters
/// with a case. Nothing else is said of other text but that the same text always gives the same
/// result.
#[verifier::external_body]
fn to_lowercase(text: &str) -> (lower: String)
    ensures
        lower@ == lowercase(text@),
        lower@ == lowercase(ascii_lowered(text@)),
        all_ascii(text@) ==> lower@ == ascii_lowered(text@),
{
    text.to_lowercase()
}

/// `String::push`: appends a character.
pub assume_specification[ String::push ](text: &mut String, c: char)
    ensures
        final(text)@ == old(text)@.push(c),
;

/// The name is one under which games ask for the payment component.
pub open spec fn is_payment_component(name: Seq<char>) -> bool {
    "wpayker"@.is_prefix_of(name) && ".cbm"@.is_suffix_of(name)
}

/// The path names the payment component.
pub open spec fn names_component(path: Seq<char>) -> bool {
    is_payment_component(lowercase(file_name_of(path)))
}

/// The lower case of the path's file name does not depend on the case of its ASCII letters. Each
/// lookup of a path shows this of the path.
pub open spec fn case_folds(path: Seq<char>) -> bool {
    lowercase(file_name_of(path)) == lowercase(ascii_lowered(file_name_of(path)))
}

/// The characters of a text.
fn chars_of(text: &str) -> (chars: Vec<char>)
    ensures
        chars@ == text@,
{
    let mut chars: Vec<char> = Vec::new();
    for c in it: text.chars()
        invariant
            it.seq() == text@,
            chars@ == text@.take(it.index() as int),
    {
        chars.push(c);
        assert(chars@ =~= text@.take(it.index() + 1));
    }
    assert(text@.take(text@.len() as int) =~= text@);
    chars
}

/// `part` stands in `chars` from `start` on.
fn stands_at(chars: &Vec<char>, part: &Vec<char>, start: usize) -> (found: bool)
    requires
        start + part@.len() <= chars@.len(),
    ensures
        found == (chars@.subrange(start as int, start + part@.len()) == part@),
{
    let mut i: usize = 0;
    while i < part.len()
        invariant
            i <= part@.len(),
            start + part@.len() <= chars@.len(),
            forall|k: int| 0 <= k < i ==> chars@[start + k] == #[trigger] part@[k],
        decreases part@.len() - i,
    {
        assert(start + i < chars.len());
        if chars[start + i] != part[i] {
            assert(chars@.subrange(start as int, start + part@.len())[i as int] != part@[i as int]);
            return false;
        }
        i += 1;
    }
    assert(chars@.subrange(start as int, start + part@.len()) =~= part@);
    true
}

/// Tells whether a name in lower case is one under which games ask for the payment component.
pub fn names_payment_component(name: &str) -> (found: bool)
    ensures
        found == is_payment_component(name@),
{
    let chars = chars_of(name);
    let prefix = chars_of("wpayker");
    let suffix = chars_of(".cbm");
    if chars.len() < prefix.len() || chars.len() < suffix.len() {
        return false;
    }
    stands_at(&chars, &prefix, 0) && stands_at(&chars, &suffix, chars.len() - suffix.len())
}

/// The part of a path after the last separator.
pub fn file_name(path: &str) -> (name: String)
    ensures
        name@ == file_name_of(path@),
{
    let chars = chars_of(path);
    let mut name = String::new();
    let mut i: usize = 0;
    assert(path@.take(0) =~= Seq::<char>::empty());
    while i < chars.len()
        invariant
            i <= chars@.len(),
            chars@ == path@,
            name@ == file_name_of(path@.take(i as int)),
        decreases chars@.len() - i,
    {
        let c = chars[i];
        assert(path@.take(i + 1).drop_last() =~= path@.take(i as int));
        if c == '/' || c == '\\' {
            name = String::new();
        } else {
            name.push(c);
        }
        i += 1;
    }
    assert(path@.take(path@.len() as int) =~= path@);
    name
}

/// The bytes look like the payment component: they have its length, and the filling that its
/// code starts with.
pub open spec fn has_component_shape(bytes: Seq<u8>) -> bool {
    bytes.len() == COMPONENT_SIZE && bytes[0] == 0xfe && bytes[1] == 0xfe && bytes[2] == 0xfe
        && bytes[3] == 0xfe
}

/// Tells whether bytes look like the payment component.
fn is_component(bytes: &Vec<u8>) -> (found: bool)
    ensures
        found == has_component_shape(bytes@),
{
    bytes.len() == COMPONENT_SIZE && bytes[0] == 0xfe && bytes[1] == 0xfe && bytes[2] == 0xfe
        && bytes[3] == 0xfe
}

/// The bytes of the payment component. Bytes that do not look like it, such as none at all, cannot
/// stand in for it.
#[derive(Debug)]
pub struct PaymentComponent {
    bytes: Vec<u8>,
}

impl View for PaymentComponent {
    type V = Seq<u8>;

    closed spec fn view(&self) -> Seq<u8> {
        self.bytes@
    }
}

impl PaymentComponent {
    /// The bytes look like the component.
    #[verifier::type_invariant]
    spec fn is_sound(self) -> bool {
        has_component_shape(self.bytes@)
    }

    /// Takes the component's bytes; `None` where they do not look like it.
    pub fn new(bytes: Vec<u8>) -> (component: Option<Self>)
        ensures
            match component {
                Some(component) => has_component_shape(bytes@) && component@ == bytes@,
                None => !has_component_shape(bytes@),
            },
    {
        if is_component(&bytes) {
            Some(PaymentComponent { bytes })
        } else {
            None
        }
    }
}

/// Finds a built-in file by its path. Directories do not matter, nor does upper or lower case.
/// The only built-in file is the payment component: every name that matches gets its bytes, and
/// no name gets an empty file.
pub fn builtin_file<'a>(path: &str, component: &'a PaymentComponent) -> (file: Option<&'a [u8]>)
    ensures
        file is Some <==> names_component(path@),
        file is Some <==> names_component(ascii_lowered(path@)),
        file matches Some(found) ==> {
            &&& found@ == component@
            &&& has_component_shape(found@)
            &&& found@.len() > 0
        },
        case_folds(path@),
        all_ascii(path@) ==> lowercase(file_name_of(path@)) == ascii_lowered(file_name_of(path@)),
{
    let name = file_name(path);
    proof {
        use_type_invariant(component);
        lemma_name_is_part(path@);
        lemma_name_of_lowered(path@);
    }
    let name = to_lowercase(name.as_str());
    if names_payment_component(name.as_str()) {
        return Some(component.bytes.as_slice());
    }
    None
}

/// A file name is the end of its path and holds no separator.
pub proof fn lemma_name_is_part(path: Seq<char>)
    ensures
        file_name_of(path).is_suffix_of(path),
        forall|i: int|
            0 <= i < file_name_of(path).len() ==> !is_separator(#[trigger] file_name_of(path)[i]),
        all_ascii(path) ==> all_ascii(file_name_of(path)),
    decreases path.len(),
{
    if path.len() > 0 && !is_separator(path.last()) {
        let shorter = path.drop_last();
        lemma_name_is_part(shorter);
        let name = file_name_of(shorter);
        assert(path.subrange(path.len() - (name.len() + 1), path.len() as int) =~= name.push(
            path.last(),
        )) by {
            assert(shorter.subrange(shorter.len() - name.len(), shorter.len() as int) =~= name);
        }
        if all_ascii(path) {
            assert forall|i: int| 0 <= i < shorter.len() implies (
            #[trigger] shorter[i]) as int <= 0x7f by {
                assert(path[i] == shorter[i]);
            }
            assert(path[path.len() - 1] as int <= 0x7f);
        }
    }
}

/// Lowering the letters of a path and taking its file name can be done in either order.
proof fn lemma_name_of_lowered(path: Seq<char>)
    ensures
        file_name_of(ascii_lowered(path)) == ascii_lowered(file_name_of(path)),
    decreases path.len(),
{
    if path.len() == 0 {
        assert(ascii_lowered(file_name_of(path)) =~= Seq::<char>::empty());
    } else {
        let shorter = path.drop_last();
        lemma_name_of_lowered(shorter);
        assert(ascii_lowered(path).drop_last() =~= ascii_lowered(shorter));
        assert(ascii_lowered(path).last() == ascii_lowercase(path.last()));
        if is_separator(path.last()) {
            assert(ascii_lowered(file_name_of(path)) =~= Seq::<char>::empty());
        } else {
            assert(ascii_lowered(file_name_of(shorter).push(path.last())) =~= ascii_lowered(
                file_name_of(shorter),
            ).push(ascii_lowercase(path.last())));
        }
    }
}

/// Paths that differ only in the case of ASCII letters name the same built-in file, whatever
/// other characters they hold. That both fold is what looking them up shows; for a path of ASCII
/// alone, looking it up shows the lower case of its name as well.
pub proof fn law_case_does_not_matter(path: Seq<char>, other: Seq<char>)
    requires
        ascii_lowered(path) == ascii_lowered(other),
    ensures
        ascii_lowered(file_name_of(path)) == ascii_lowered(file_name_of(other)),
        case_folds(path) && case_folds(other) ==> names_component(path) == names_component(other),
        lowercase(file_name_of(path)) == ascii_lowered(file_name_of(path)) && lowercase(
            file_name_of(other),
        ) == ascii_lowered(file_name_of(other)) ==> names_component(path) == names_component(
            other,
        ),
{
    lemma_name_of_lowered(path);
    lemma_name_of_lowered(other);
}

/// A path put into lower or upper case differs from the path only in the case of ASCII letters.
pub proof fn law_recased_path_differs_in_case_only(path: Seq<char>)
    ensures
        ascii_lowered(ascii_lowered(path)) == ascii_lowered(path),
        ascii_lowered(ascii_raised(path)) == ascii_lowered(path),
{
    assert(ascii_lowered(ascii_lowered(path)) =~= ascii_lowered(path));
    assert(ascii_lowered(ascii_raised(path)) =~= ascii_lowered(path));
}

/// A directory in front of a path, with either separator, does not change which built-in file
/// the path names.
pub proof fn law_directory_does_not_matter(directory: Seq<char>, separator: char, name: Seq<char>)
    requires
        is_separator(separator),
    ensures
        file_name_of(directory.push(separator) + name) == file_name_of(name),
    decreases name.len(),
{
    let path = directory.push(separator) + name;
    if name.len() == 0 {
        assert(path =~= directory.push(separator));
    } else {
        assert(path.last() == name.last());
        assert(path.drop_last() =~= directory.push(separator) + name.drop_last());
        law_directory_does_not_matter(directory, separator, name.drop_last());
    }
}

/// A path without a separator is a file name as a whole.
pub proof fn law_plain_path_is_its_name(path: Seq<char>)
    requires
        forall|i: int| 0 <= i < path.len() ==> #[trigger] path[i] != '/' && path[i] != '\\',
    ensures
        file_name_of(path) == path,
    decreases path.len(),
{
    if path.len() > 0 {
        let shorter = path.drop_last();
        assert forall|i: int| 0 <= i < shorter.len() implies #[trigger] shorter[i] != '/'
            && shorter[i] != '\\' by {
            assert(shorter[i] == path[i]);
        }
        law_plain_path_is_its_name(shorter);
        assert(path[path.len() - 1] == path.last());
        assert(shorter.push(path.last()) =~= path);
    }
}

/// A path names what stands behind its last separator, of either kind.
pub proof fn law_file_name_follows_last_separator(
    directory: Seq<char>,
    separator: char,
    name: Seq<char>,
)
    requires
        separator == '/' || separator == '\\',
        forall|i: int| 0 <= i < name.len() ==> #[trigger] name[i] != '/' && name[i] != '\\',
    ensures
        file_name_of(directory.push(separator) + name) == name,
{
    law_directory_does_not_matter(directory, separator, name);
    law_plain_path_is_its_name(name);
}

/// The names of the payment component, with what stands between their start and their end.
pub open spec fn component_name(middle: Seq<char>) -> Seq<char> {
    seq!['w', 'p', 'a', 'y', 'k', 'e', 'r'] + middle + seq!['.', 'c', 'b', 'm']
}

/// A name in lower case is one of the payment component exactly if it starts with the seven letters
/// of the component and ends with the four characters of its kind of file, with anything between.
pub proof fn law_component_names(name: Seq<char>, middle: Seq<char>)
    ensures
        is_payment_component(component_name(middle)),
        is_payment_component(name) ==> {
            let between = name.subrange(7, name.len() - 4);
            &&& name.len() >= 11
            &&& name == component_name(between)
        },
{
    let start = seq!['w', 'p', 'a', 'y', 'k', 'e', 'r'];
    let end = seq!['.', 'c', 'b', 'm'];
    reveal_strlit("wpayker");
    reveal_strlit(".cbm");
    assert("wpayker"@ =~= start);
    assert(".cbm"@ =~= end);
    let all = start + middle + end;
    assert(all.subrange(0, 7) =~= start);
    assert(all.subrange(all.len() - 4, all.len() as int) =~= end);
    if is_payment_component(name) {
        assert(name.subrange(0, 7) == start);
        assert(name.subrange(name.len() - 4, name.len() as int) == end);
        assert(forall|i: int| 0 <= i < 7 ==> name[i] == #[trigger] start[i]) by {
            assert forall|i: int| 0 <= i < 7 implies name[i] == #[trigger] start[i] by {
                assert(name.subrange(0, 7)[i] == start[i]);
            }
        }
        assert forall|i: int| 0 <= i < 4 implies name[name.len() - 4 + i] == #[trigger] end[i] by {
            assert(name.subrange(name.len() - 4, name.len() as int)[i] == end[i]);
        }
        assert(end[0] == '.');
        if name.len() < 11 {
            let k = name.len() - 4;
            assert(name[k] == '.');
            assert(start[k] == name[k]);
            assert(start[0] == 'w' && start[1] == 'p' && start[2] == 'a' && start[3] == 'y'
                && start[4] == 'k' && start[5] == 'e' && start[6] == 'r');
            assert(false);
        }
        assert(name =~= start + name.subrange(7, name.len() - 4) + end);
    }
}

/// Lower case of ASCII changes the letters A to Z to those 32 places further on, and nothing else.
pub proof fn law_lower_case_of_ascii(c: char)
    ensures
        0x41 <= c as int <= 0x5a ==> ascii_lowercase(c) as int == c as int + 32,
        !(0x41 <= c as int <= 0x5a) ==> ascii_lowercase(c) == c,
        0x61 <= c as int <= 0x7a ==> ascii_uppercase(c) as int == c as int - 32,
        !(0x61 <= c as int <= 0x7a) ==> ascii_uppercase(c) == c,
{
}

/// The payment component has 75341 bytes and starts with four of value 0xfe; no other bytes are
/// taken for it.
pub proof fn law_component_shape(bytes: Seq<u8>)
    ensures
        has_component_shape(bytes) <==> bytes.len() == 75341 && forall|i: int|
            0 <= i < 4 ==> #[trigger] bytes[i] == 0xfe,
{
    if bytes.len() == 75341 && forall|i: int| 0 <= i < 4 ==> #[trigger] bytes[i] == 0xfe {
        assert(bytes[0] == 0xfe && bytes[1] == 0xfe && bytes[2] == 0xfe && bytes[3] == 0xfe);
    }
}

/// A path names the component, in whatever directory, exactly if the lower case of its file name
/// starts and ends as the component's names do.
pub proof fn law_component_is_found(directory: Seq<char>, separator: char, name: Seq<char>)
    requires
        separator == '/' || separator == '\\',
        forall|i: int| 0 <= i < name.len() ==> #[trigger] name[i] != '/' && name[i] != '\\',
    ensures
        ({
            let lower = lowercase(name);
            let found = exists|middle: Seq<char>| lower == #[trigger] component_name(middle);
            &&& names_component(name) == found
            &&& names_component(directory.push(separator) + name) == found
        }),
{
    let lower = lowercase(name);
    law_plain_path_is_its_name(name);
    law_file_name_follows_last_separator(directory, separator, name);
    law_component_names(lower, Seq::empty());
    if exists|middle: Seq<char>| lower == #[trigger] component_name(middle) {
        let middle = choose|middle: Seq<char>| lower == #[trigger] component_name(middle);
        law_component_names(lower, middle);
    }
    if is_payment_component(lower) {
        let between = lower.subrange(7, lower.len() - 4);
        assert(lower == component_name(between));
    }
}

/// Lowering and raising work character by character.
pub proof fn law_case_is_changed_by_character(text: Seq<char>, i: int)
    requires
        0 <= i < text.len(),
    ensures
        ascii_lowered(text).len() == text.len(),
        ascii_lowered(text)[i] == ascii_lowercase(text[i]),
        ascii_raised(text).len() == text.len(),
        ascii_raised(text)[i] == ascii_uppercase(text[i]),
        all_ascii(text) ==> text[i] as int <= 0x7f,
{
}

} // verus!
