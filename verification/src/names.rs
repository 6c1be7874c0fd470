//! Package names and the extraction of dependency names from dependency
//! specs.
//!
//! A package name is a canonical lowercase identifier; equality and hashing
//! are on the normalized form. A dependency spec is a free-form string of the
//! form `<name>[ <constraint>...]`: everything before the first space is the
//! package name.

use vstd::prelude::*;

verus! {

/// True of a character that may appear in a normalized package name:
/// printable ASCII, no space, no uppercase letter.
pub open spec fn valid_name_char(c: char) -> bool {
    ' ' < c <= '~' && !('A' <= c && c <= 'Z')
}

/// True of a sequence of characters that forms a normalized package name:
/// nonempty, every character printable lowercase ASCII.
pub open spec fn valid_name(s: Seq<char>) -> bool {
    &&& s.len() > 0
    &&& forall|i: int| 0 <= i < s.len() ==> valid_name_char(#[trigger] s[i])
}

/// The ASCII lowercase form of a character.
pub open spec fn spec_lower_char(c: char) -> char {
    if 'A' <= c && c <= 'Z' {
        (c as u8 + 32) as char
    } else {
        c
    }
}

/// The ASCII lowercase form of a sequence of characters.
pub open spec fn spec_lower(s: Seq<char>) -> Seq<char> {
    s.map_values(|c: char| spec_lower_char(c))
}

/// A canonical lowercase package identifier.
///
/// Two names are equal exactly when their normalized forms are equal.
#[derive(Debug, PartialEq, Eq, Hash)]
pub struct PackageName {
    normalized: String,
}

impl PackageName {
    /// The normalized form, as a sequence of characters.
    pub closed spec fn view(self) -> Seq<char> {
        self.normalized@
    }

    /// Well-formedness: the stored form is a valid normalized name.
    pub open spec fn wf(self) -> bool {
        valid_name(self@)
    }

    /// Wraps a string that is already a normalized package name.
    pub fn new_unchecked(name: &str) -> (r: PackageName)
        requires
            valid_name(name@),
        ensures
            r@ == name@,
            r.wf(),
    {
        PackageName { normalized: name.to_owned() }
    }

    /// Normalizes a source string into a package name: ASCII uppercase
    /// letters are lowered; any other character outside the valid set makes
    /// the whole string invalid.
    pub fn normalize(source: &str) -> (r: Option<PackageName>)
        ensures
            match r {
                Some(name) => name.wf() && name@ == spec_lower(source@) && valid_name(
                    spec_lower(source@),
                ),
                None => !valid_name(spec_lower(source@)),
            },
    {
        let len = source.unicode_len();
        if len == 0 {
            assert(spec_lower(source@).len() == 0);
            return None;
        }
        let mut out = String::new();
        let mut i: usize = 0;
        while i < len
            invariant
                0 <= i <= len,
                len == source@.len(),
                out@ == spec_lower(source@).subrange(0, i as int),
                forall|j: int| 0 <= j < i ==> valid_name_char(#[trigger] spec_lower(source@)[j]),
            decreases len - i,
        {
            let c = source.get_char(i);
            let lc = lower_char(c);
            if !(' ' < lc && lc <= '~') {
                proof {
                    assert(spec_lower(source@)[i as int] == spec_lower_char(source@[i as int]));
                    assert(!valid_name_char(spec_lower(source@)[i as int]));
                }
                return None;
            }
            assert(valid_name_char(spec_lower(source@)[i as int]));
            push_char(&mut out, lc);
            assert(out@ =~= spec_lower(source@).subrange(0, i + 1));
            i += 1;
        }
        assert(out@ =~= spec_lower(source@));
        Some(PackageName { normalized: out })
    }

    /// The normalized name as a string slice.
    pub fn as_normalized(&self) -> (r: &str)
        ensures
            r@ == self@,
    {
        self.normalized.as_str()
    }

    /// Equality on the normalized form.
    pub fn eq_name(&self, other: &PackageName) -> (r: bool)
        ensures
            r == (self@ == other@),
    {
        str_eq(self.normalized.as_str(), other.normalized.as_str())
    }
}

impl Clone for PackageName {
    fn clone(&self) -> (r: Self)
        ensures
            r@ == self@,
    {
        PackageName { normalized: self.normalized.clone() }
    }
}

/// The ASCII lowercase form of a character.
pub fn lower_char(c: char) -> (r: char)
    ensures
        r == spec_lower_char(c),
{
    if 'A' <= c && c <= 'Z' {
        ((c as u8) + 32) as char
    } else {
        c
    }
}

/// Appends one character to a string.
pub fn push_char(s: &mut String, c: char) -> (unit: ())
    ensures
        final(s)@ == old(s)@.push(c),
{
    let enc: String = char_to_string(&c);
    s.append(enc.as_str());
    proof {
        assert(s@ =~= old(s)@.push(c));
    }
}

/// Relies on `char::to_string` (through `ToString`): the resulting string
/// holds exactly the one given character.
#[verifier::external_body]
fn char_to_string(c: &char) -> (r: String)
    ensures
        r@ =~= seq![*c],
{
    c.to_string()
}

/// Character-for-character string equality.
pub fn str_eq(a: &str, b: &str) -> (r: bool)
    ensures
        r == (a@ == b@),
{
    let alen = a.unicode_len();
    let blen = b.unicode_len();
    if alen != blen {
        return false;
    }
    let mut i: usize = 0;
    while i < alen
        invariant
            0 <= i <= alen,
            alen == a@.len(),
            alen == b@.len(),
            forall|j: int| 0 <= j < i ==> a@[j] == b@[j],
        decreases alen - i,
    {
        if a.get_char(i) != b.get_char(i) {
            return false;
        }
        i += 1;
    }
    proof {
        assert(a@ =~= b@);
    }
    true
}

/// The name part of a dependency spec: everything before the first space, or
/// the whole spec when it holds no space.
pub open spec fn spec_dep_name_part(s: Seq<char>) -> Seq<char> {
    if exists|i: int| 0 <= i < s.len() && s[i] == ' ' {
        s.subrange(0, choose_first_space(s))
    } else {
        s
    }
}

/// The index of the first space in a sequence that holds one.
pub open spec fn choose_first_space(s: Seq<char>) -> int {
    choose|i: int| 0 <= i < s.len() && s[i] == ' ' && forall|j: int| 0 <= j < i ==> s[j] != ' '
}

/// The dependency name extracted from a dependency spec, after
/// normalization, or `None` when the name part is not a valid name even
/// after lowercasing (empty, leading space, control or non-ASCII
/// characters).
pub open spec fn spec_dep_name(s: Seq<char>) -> Option<Seq<char>> {
    let part = spec_lower(spec_dep_name_part(s));
    if valid_name(part) {
        Some(part)
    } else {
        None
    }
}

/// Extracts the dependency's package name from a dependency spec: the spec is
/// split at the first space and the part before it is normalized. A spec
/// whose name part is empty, starts with a space, or holds characters outside
/// printable ASCII yields `None` and is ignored by callers.
pub fn dependency_package_name(spec: &str) -> (r: Option<PackageName>)
    ensures
        match r {
            Some(name) => name.wf() && Some(name@) == spec_dep_name(spec@),
            None => spec_dep_name(spec@) is None,
        },
{
    let len = spec.unicode_len();
    let mut cut: usize = len;
    let mut i: usize = 0;
    while i < len
        invariant_except_break
            cut == len,
        invariant
            0 <= i <= len,
            len == spec@.len(),
            forall|j: int| 0 <= j < i ==> spec@[j] != ' ',
        ensures
            len == spec@.len(),
            cut == len ==> forall|j: int| 0 <= j < len ==> spec@[j] != ' ',
            cut < len ==> spec@[cut as int] == ' ' && forall|j: int| 0 <= j < cut ==> spec@[j]
                != ' ',
            cut <= len,
        decreases len - i,
    {
        if spec.get_char(i) == ' ' {
            cut = i;
            break;
        }
        i += 1;
    }
    proof {
        if cut < len {
            assert(spec@[cut as int] == ' ');
            assert(choose_first_space(spec@) == cut as int) by {
                let w = choose_first_space(spec@);
                assert(0 <= w < spec@.len() && spec@[w] == ' ' && forall|j: int|
                    0 <= j < w ==> spec@[j] != ' ') by {
                    assert(0 <= cut < spec@.len() && spec@[cut as int] == ' ' && forall|j: int|
                        0 <= j < cut ==> spec@[j] != ' ');
                }
                if w < cut {
                    assert(spec@[w] != ' ');
                } else if cut < w {
                    assert(spec@[cut as int] != ' ');
                }
            }
            assert(spec_dep_name_part(spec@) == spec@.subrange(0, cut as int));
        } else {
            assert(forall|j: int| 0 <= j < spec@.len() ==> spec@[j] != ' ');
            assert(spec_dep_name_part(spec@) =~= spec@);
        }
    }
    let part = if cut < len {
        spec.substring_char(0, cut)
    } else {
        spec
    };
    proof {
        assert(part@ =~= spec_dep_name_part(spec@));
    }
    PackageName::normalize(part)
}

} // verus!
