//! A writer for YAML documents with proper formatting, indentation, and
//! quoting.
//!
//! The writer offers a builder-style API: a [`YamlWriter`] hands out a root
//! [`YamlTable`]; nested structures ([`YamlTable`], [`YamlSequence`],
//! [`YamlInlineTable`], [`YamlInlineSequence`]) are built as values and then
//! attached to their parent under a key. Every method's contract states the
//! exact text it appends, so the rendered document is pinned down completely
//! by the contracts.
//!
//! Scalars are quoted exactly when YAML would otherwise reinterpret them: the
//! empty string, strings that case-insensitively spell a YAML keyword
//! (`true`, `false`, `yes`, `no`, `on`, `off`, `~`), strings that use the
//! syntax of a floating-point literal, and strings containing `": "`.

use vstd::prelude::*;

use crate::names::{lower_char, push_char, spec_lower, str_eq};

verus! {

/// True when every character of `s` in `[from, to)` is an ASCII digit.
pub open spec fn all_digits(s: Seq<char>, from: int, to: int) -> bool {
    forall|i: int| from <= i < to ==> '0' <= #[trigger] s[i] && s[i] <= '9'
}

/// True when some character of `s` in `[from, to)` is an ASCII digit.
pub open spec fn some_digit(s: Seq<char>, from: int, to: int) -> bool {
    exists|i: int| from <= i < to && '0' <= #[trigger] s[i] && s[i] <= '9'
}

/// The start of the unsigned part: 1 when the string begins with a sign.
pub open spec fn sign_skip(s: Seq<char>) -> int {
    if s.len() > 0 && (s[0] == '+' || s[0] == '-') {
        1int
    } else {
        0int
    }
}

/// True when `s` in `[from, to)` is a valid mantissa: at least one digit,
/// at most one dot, and nothing else.
pub open spec fn is_mantissa(s: Seq<char>, from: int, to: int) -> bool {
    if exists|i: int| from <= i < to && #[trigger] s[i] == '.' {
        let d = first_dot(s, from, to);
        all_digits(s, from, d) && all_digits(s, d + 1, to) && (some_digit(s, from, d)
            || some_digit(s, d + 1, to))
    } else {
        from < to && all_digits(s, from, to)
    }
}

/// The index of the first dot of `s` in `[from, to)`, when there is one.
pub open spec fn first_dot(s: Seq<char>, from: int, to: int) -> int {
    choose|i: int|
        from <= i < to && s[i] == '.' && forall|j: int| from <= j < i ==> s[j] != '.'
}

/// True when `s` in `[from, to)` is a valid exponent part (after the `e`):
/// an optional sign followed by at least one digit, and digits only.
pub open spec fn is_exponent(s: Seq<char>, from: int, to: int) -> bool {
    let d = if from < to && (s[from] == '+' || s[from] == '-') {
        from + 1
    } else {
        from
    };
    d < to && all_digits(s, d, to)
}

/// The index of the first `e` or `E` of `s` in `[from, to)`, when there is
/// one.
pub open spec fn first_exp_mark(s: Seq<char>, from: int, to: int) -> int {
    choose|i: int|
        from <= i < to && (s[i] == 'e' || s[i] == 'E') && forall|j: int|
            from <= j < i ==> s[j] != 'e' && s[j] != 'E'
}

/// True when `s`, taken whole, uses the syntax of a floating-point literal:
/// an optional sign, then either a decimal number with an optional exponent,
/// or one of the words `inf`, `infinity`, `nan` in any case.
pub open spec fn is_float_syntax(s: Seq<char>) -> bool {
    let from = sign_skip(s);
    let to = s.len() as int;
    let rest = spec_lower(s.subrange(from, to));
    ||| rest == "inf"@
    ||| rest == "infinity"@
    ||| rest == "nan"@
    ||| (if exists|i: int| from <= i < to && (#[trigger] s[i] == 'e' || s[i] == 'E') {
        let m = first_exp_mark(s, from, to);
        is_mantissa(s, from, m) && is_exponent(s, m + 1, to)
    } else {
        is_mantissa(s, from, to)
    })
}

/// True when `s` case-insensitively spells a YAML keyword.
pub open spec fn is_yaml_keyword(s: Seq<char>) -> bool {
    let l = spec_lower(s);
    ||| l == "true"@
    ||| l == "false"@
    ||| l == "yes"@
    ||| l == "no"@
    ||| l == "on"@
    ||| l == "off"@
    ||| l == "~"@
}

/// True when `s` holds a colon followed by a space.
pub open spec fn has_colon_space(s: Seq<char>) -> bool {
    exists|i: int| 0 <= i < s.len() - 1 && #[trigger] s[i] == ':' && s[i + 1] == ' '
}

/// True when a scalar must be quoted to render as itself.
pub open spec fn yaml_needs_quotes(s: Seq<char>) -> bool {
    ||| s.len() == 0
    ||| is_yaml_keyword(s)
    ||| is_float_syntax(s)
    ||| has_colon_space(s)
}

/// The rendering of a scalar: the string itself, or the string in double
/// quotes when YAML would otherwise reinterpret it.
pub open spec fn yaml_scalar(s: Seq<char>) -> Seq<char> {
    if yaml_needs_quotes(s) {
        "\""@ + s + "\""@
    } else {
        s
    }
}

/// The rendering of a boolean value.
pub open spec fn yaml_bool(b: bool) -> Seq<char> {
    if b {
        "true"@
    } else {
        "false"@
    }
}

/// Collects the characters of a string slice into a vector.
pub fn str_chars(s: &str) -> (r: Vec<char>)
    ensures
        r@ == s@,
{
    let len = s.unicode_len();
    let mut out: Vec<char> = Vec::new();
    let mut i: usize = 0;
    while i < len
        invariant
            0 <= i <= len,
            len == s@.len(),
            out@ == s@.subrange(0, i as int),
        decreases len - i,
    {
        out.push(s.get_char(i));
        proof {
            assert(out@ =~= s@.subrange(0, i + 1));
        }
        i += 1;
    }
    proof {
        assert(out@ =~= s@);
    }
    out
}

/// Decides whether the characters `cs` use floating-point literal syntax.
/// `lowered` must hold the lowercased form of the same characters.
fn chars_look_like_number(cs: &Vec<char>, lowered: &str) -> (r: bool)
    requires
        lowered@ == spec_lower(cs@),
    ensures
        r == is_float_syntax(cs@),
{
    let n = cs.len();
    proof {
        assert(lowered@.len() == cs@.len());
    }
    let from: usize = if n > 0 && (cs[0] == '+' || cs[0] == '-') {
        1
    } else {
        0
    };
    proof {
        assert(from as int == sign_skip(cs@));
        assert(spec_lower(cs@.subrange(from as int, n as int)) =~= lowered@.subrange(
            from as int,
            n as int,
        ));
    }
    let tail = lowered_tail(lowered, from);
    if str_eq(tail.as_str(), "inf") || str_eq(tail.as_str(), "infinity") || str_eq(
        tail.as_str(),
        "nan",
    ) {
        return true;
    }
    // Find the first exponent mark.
    let mut m: usize = n;
    let mut i: usize = from;
    while i < n
        invariant_except_break
            m == n,
        invariant
            from <= i <= n,
            n == cs@.len(),
            forall|j: int| from <= j < i ==> cs@[j] != 'e' && cs@[j] != 'E',
        ensures
            n == cs@.len(),
            m == n ==> forall|j: int| from <= j < n ==> cs@[j] != 'e' && cs@[j] != 'E',
            m < n ==> from <= m && (cs@[m as int] == 'e' || cs@[m as int] == 'E') && forall|j: int|
                from <= j < m ==> cs@[j] != 'e' && cs@[j] != 'E',
            m <= n,
        decreases n - i,
    {
        if cs[i] == 'e' || cs[i] == 'E' {
            m = i;
            break;
        }
        i += 1;
    }
    let mantissa_ok = check_mantissa(cs, from, m);
    if m == n {
        proof {
            let rest = spec_lower(cs@.subrange(from as int, n as int));
            assert(rest != "inf"@ && rest != "infinity"@ && rest != "nan"@);
            assert(!(exists|i: int|
                from <= i < n && (#[trigger] cs@[i] == 'e' || cs@[i] == 'E')));
        }
        mantissa_ok
    } else {
        proof {
            assert(cs@[m as int] == 'e' || cs@[m as int] == 'E');
            assert(first_exp_mark(cs@, from as int, n as int) == m as int) by {
                let w = first_exp_mark(cs@, from as int, n as int);
                assert(from <= w < n && (cs@[w] == 'e' || cs@[w] == 'E') && forall|j: int|
                    from <= j < w ==> cs@[j] != 'e' && cs@[j] != 'E') by {
                    assert(from as int <= m < n && (cs@[m as int] == 'e' || cs@[m as int] == 'E')
                        && forall|j: int| from <= j < m ==> cs@[j] != 'e' && cs@[j] != 'E');
                }
                if w < m {
                    assert(cs@[w] != 'e' && cs@[w] != 'E');
                } else if m < w {
                    assert(cs@[m as int] != 'e' && cs@[m as int] != 'E');
                }
            }
        }
        mantissa_ok && check_exponent(cs, m + 1, n)
    }
}

/// The lowercased characters of `lowered` from position `from` on, used to
/// compare a possibly signed word against the spellings of infinities and
/// not-a-number.
fn lowered_tail(lowered: &str, from: usize) -> (r: String)
    requires
        from <= lowered@.len(),
    ensures
        r@ == lowered@.subrange(from as int, lowered@.len() as int),
{
    lowered.substring_char(from, lowered.unicode_len()).to_owned()
}

/// Decides whether `cs` in `[from, to)` is a valid mantissa.
fn check_mantissa(cs: &Vec<char>, from: usize, to: usize) -> (r: bool)
    requires
        from <= to <= cs@.len(),
    ensures
        r == is_mantissa(cs@, from as int, to as int),
{
    // Find the first dot.
    let mut d: usize = to;
    let mut i: usize = from;
    while i < to
        invariant_except_break
            d == to,
        invariant
            from <= i <= to,
            to <= cs@.len(),
            forall|j: int| from <= j < i ==> cs@[j] != '.',
        ensures
            d == to ==> forall|j: int| from <= j < to ==> cs@[j] != '.',
            d < to ==> from <= d && cs@[d as int] == '.' && forall|j: int|
                from <= j < d ==> cs@[j] != '.',
            d <= to,
        decreases to - i,
    {
        if cs[i] == '.' {
            d = i;
            break;
        }
        i += 1;
    }
    if d == to {
        proof {
            assert(!(exists|i: int| from <= i < to && #[trigger] cs@[i] == '.'));
        }
        if from == to {
            return false;
        }
        check_all_digits(cs, from, to)
    } else {
        proof {
            assert(first_dot(cs@, from as int, to as int) == d as int) by {
                let w = first_dot(cs@, from as int, to as int);
                assert(from <= w < to && cs@[w] == '.' && forall|j: int|
                    from <= j < w ==> cs@[j] != '.') by {
                    assert(from as int <= d < to && cs@[d as int] == '.' && forall|j: int|
                        from <= j < d ==> cs@[j] != '.');
                }
                if w < d {
                    assert(cs@[w] != '.');
                } else if d < w {
                    assert(cs@[d as int] != '.');
                }
            }
        }
        let before = check_all_digits(cs, from, d);
        let after = check_all_digits(cs, d + 1, to);
        let nonempty = from < d || d + 1 < to;
        proof {
            if before && after && nonempty {
                if from < d {
                    assert('0' <= cs@[from as int] && cs@[from as int] <= '9');
                    assert(some_digit(cs@, from as int, d as int));
                } else {
                    assert('0' <= cs@[d as int + 1] && cs@[d as int + 1] <= '9');
                    assert(some_digit(cs@, d as int + 1, to as int));
                }
            }
        }
        before && after && nonempty
    }
}

/// Decides whether `cs` in `[from, to)` is a valid exponent part.
fn check_exponent(cs: &Vec<char>, from: usize, to: usize) -> (r: bool)
    requires
        from <= to <= cs@.len(),
    ensures
        r == is_exponent(cs@, from as int, to as int),
{
    let d: usize = if from < to && (cs[from] == '+' || cs[from] == '-') {
        from + 1
    } else {
        from
    };
    if d == to {
        return false;
    }
    check_all_digits(cs, d, to)
}

/// Decides whether every character of `cs` in `[from, to)` is a digit.
fn check_all_digits(cs: &Vec<char>, from: usize, to: usize) -> (r: bool)
    requires
        from <= to <= cs@.len() || to <= from,
    ensures
        r == all_digits(cs@, from as int, to as int),
{
    if to <= from {
        return true;
    }
    let mut i: usize = from;
    while i < to
        invariant
            from <= i <= to,
            to <= cs@.len(),
            forall|j: int| from <= j < i ==> '0' <= #[trigger] cs@[j] && cs@[j] <= '9',
        decreases to - i,
    {
        let c = cs[i];
        if !('0' <= c && c <= '9') {
            return false;
        }
        i += 1;
    }
    true
}

/// Decides whether a scalar must be quoted.
pub fn needs_quotes(s: &str) -> (r: bool)
    ensures
        r == yaml_needs_quotes(s@),
{
    let len = s.unicode_len();
    if len == 0 {
        return true;
    }
    // Lowercase copy for the keyword and word checks.
    let cs = str_chars(s);
    let mut lowered = String::new();
    let mut i: usize = 0;
    while i < len
        invariant
            0 <= i <= len,
            len == cs@.len(),
            cs@ == s@,
            lowered@ == spec_lower(s@).subrange(0, i as int),
        decreases len - i,
    {
        push_char(&mut lowered, lower_char(cs[i]));
        proof {
            assert(lowered@ =~= spec_lower(s@).subrange(0, i + 1));
        }
        i += 1;
    }
    proof {
        assert(lowered@ =~= spec_lower(s@));
    }
    if str_eq(lowered.as_str(), "true") || str_eq(lowered.as_str(), "false") || str_eq(
        lowered.as_str(),
        "yes",
    ) || str_eq(lowered.as_str(), "no") || str_eq(lowered.as_str(), "on") || str_eq(
        lowered.as_str(),
        "off",
    ) || str_eq(lowered.as_str(), "~") {
        return true;
    }
    proof {
        assert(spec_lower(cs@.subrange(sign_skip(cs@), cs@.len() as int)) =~= spec_lower(cs@)
            .subrange(sign_skip(cs@), cs@.len() as int));
    }
    if chars_look_like_number(&cs, lowered.as_str()) {
        return true;
    }
    // Colon-space scan.
    let mut j: usize = 0;
    while j < len - 1
        invariant
            0 <= j,
            len == cs@.len(),
            cs@ == s@,
            len >= 1,
            j <= len,
            forall|k: int| 0 <= k < j ==> !(#[trigger] s@[k] == ':' && s@[k + 1] == ' '),
        decreases len - j,
    {
        if cs[j] == ':' && cs[j + 1] == ' ' {
            return true;
        }
        j += 1;
    }
    proof {
        assert(!has_colon_space(s@));
    }
    false
}

/// Appends the rendering of a scalar: quoted when needed, bare otherwise.
fn append_scalar(out: &mut String, s: &str) -> (unit: ())
    ensures
        final(out)@ == old(out)@ + yaml_scalar(s@),
{
    if needs_quotes(s) {
        out.append("\"");
        out.append(s);
        out.append("\"");
        proof {
            assert(out@ =~= old(out)@ + yaml_scalar(s@));
        }
    } else {
        out.append(s);
    }
}

/// A writer for creating YAML documents.
///
/// The writer hands out a root table through [`YamlWriter::root`]; content is
/// added to that table and [`YamlWriter::finish`] renders the document.
pub struct YamlWriter {
    _private: bool,
}

impl YamlWriter {
    /// Creates a new YAML writer.
    pub fn new() -> (r: YamlWriter) {
        YamlWriter { _private: false }
    }

    /// Creates a root table for the YAML document. All content is added
    /// through this root table.
    pub fn root(&self) -> (r: YamlTable)
        ensures
            r@ == Seq::<char>::empty(),
            r.spec_indent() == Seq::<char>::empty(),
            r.spec_pending_prefix() == r.spec_indent(),
    {
        YamlTable { out: String::new(), indent: String::new(), inline_first: false }
    }

    /// Finishes writing: renders the document built in the given root table.
    pub fn finish(self, root: YamlTable) -> (r: String)
        ensures
            r@ == root@,
    {
        root.out
    }
}

/// A YAML table (mapping) writer: key-value pairs with proper indentation.
pub struct YamlTable {
    out: String,
    indent: String,
    inline_first: bool,
}

impl YamlTable {
    /// The text written so far.
    pub closed spec fn view(&self) -> Seq<char> {
        self.out@
    }

    /// The indentation applied before each entry.
    pub closed spec fn spec_indent(&self) -> Seq<char> {
        self.indent@
    }

    /// The prefix the next entry will carry: empty for the first entry of a
    /// table that continues an already-indented line, the indentation
    /// otherwise.
    pub closed spec fn spec_pending_prefix(&self) -> Seq<char> {
        if self.inline_first {
            Seq::<char>::empty()
        } else {
            self.indent@
        }
    }

    /// Creates an empty child table indented one step beyond this one, for
    /// attaching with [`YamlTable::table`].
    pub fn nested(&self) -> (r: YamlTable)
        ensures
            r@ == Seq::<char>::empty(),
            r.spec_indent() == self.spec_indent() + "  "@,
            r.spec_pending_prefix() == r.spec_indent(),
    {
        let mut ind = self.indent.clone();
        ind.append("  ");
        YamlTable { out: String::new(), indent: ind, inline_first: false }
    }

    /// Writes the pending prefix and arms the indentation for later entries.
    fn apply_indent(&mut self) -> (unit: ())
        ensures
            final(self)@ == old(self)@ + old(self).spec_pending_prefix(),
            final(self).spec_indent() == old(self).spec_indent(),
            final(self).spec_pending_prefix() == final(self).spec_indent(),
    {
        if !self.inline_first {
            let ind = self.indent.clone();
            self.out.append(ind.as_str());
        } else {
            proof {
                assert(self.out@ =~= old(self)@ + old(self).spec_pending_prefix());
            }
        }
        self.inline_first = false;
    }

    /// Adds a string key-value pair: `key: value`, each side quoted when
    /// needed.
    pub fn string(&mut self, key: &str, value: &str) -> (unit: ())
        ensures
            final(self)@ == old(self)@ + old(self).spec_pending_prefix() + yaml_scalar(key@)
                + ": "@ + yaml_scalar(value@) + "\n"@,
            final(self).spec_indent() == old(self).spec_indent(),
            final(self).spec_pending_prefix() == final(self).spec_indent(),
    {
        self.apply_indent();
        append_scalar(&mut self.out, key);
        self.out.append(": ");
        append_scalar(&mut self.out, value);
        self.out.append("\n");
        proof {
            assert(self.out@ =~= old(self)@ + old(self).spec_pending_prefix() + yaml_scalar(key@)
                + ": "@ + yaml_scalar(value@) + "\n"@);
        }
    }

    /// Adds a boolean key-value pair: `key: true` or `key: false`.
    pub fn boolean(&mut self, key: &str, value: bool) -> (unit: ())
        ensures
            final(self)@ == old(self)@ + old(self).spec_pending_prefix() + yaml_scalar(key@)
                + ": "@ + yaml_bool(value) + "\n"@,
            final(self).spec_indent() == old(self).spec_indent(),
            final(self).spec_pending_prefix() == final(self).spec_indent(),
    {
        self.apply_indent();
        append_scalar(&mut self.out, key);
        self.out.append(": ");
        self.out.append(if value {
            "true"
        } else {
            "false"
        });
        self.out.append("\n");
        proof {
            assert(self.out@ =~= old(self)@ + old(self).spec_pending_prefix() + yaml_scalar(key@)
                + ": "@ + yaml_bool(value) + "\n"@);
        }
    }

    /// Adds a null value under the given key: `key: null`.
    pub fn null(&mut self, key: &str) -> (unit: ())
        ensures
            final(self)@ == old(self)@ + old(self).spec_pending_prefix() + yaml_scalar(key@)
                + ": null\n"@,
            final(self).spec_indent() == old(self).spec_indent(),
            final(self).spec_pending_prefix() == final(self).spec_indent(),
    {
        self.apply_indent();
        append_scalar(&mut self.out, key);
        self.out.append(": null\n");
        proof {
            assert(self.out@ =~= old(self)@ + old(self).spec_pending_prefix() + yaml_scalar(key@)
                + ": null\n"@);
        }
    }

    /// Adds a comment line: `# comment`.
    pub fn comment(&mut self, comment: &str) -> (unit: ())
        ensures
            final(self)@ == old(self)@ + old(self).spec_pending_prefix() + "# "@ + comment@
                + "\n"@,
            final(self).spec_indent() == old(self).spec_indent(),
            final(self).spec_pending_prefix() == final(self).spec_indent(),
    {
        self.apply_indent();
        self.out.append("# ");
        self.out.append(comment);
        self.out.append("\n");
        proof {
            assert(self.out@ =~= old(self)@ + old(self).spec_pending_prefix() + "# "@ + comment@
                + "\n"@);
        }
    }

    /// Adds an inline table under the given key:
    /// `key: { k1: v1, k2: v2 }`.
    pub fn inline_table(&mut self, key: &str, t: &YamlInlineTable) -> (unit: ())
        ensures
            final(self)@ == old(self)@ + old(self).spec_pending_prefix() + yaml_scalar(key@)
                + ": {"@ + t@ + " }\n"@,
            final(self).spec_indent() == old(self).spec_indent(),
            final(self).spec_pending_prefix() == final(self).spec_indent(),
    {
        self.apply_indent();
        append_scalar(&mut self.out, key);
        self.out.append(": {");
        self.out.append(t.buf.as_str());
        self.out.append(" }\n");
        proof {
            assert(self.out@ =~= old(self)@ + old(self).spec_pending_prefix() + yaml_scalar(key@)
                + ": {"@ + t@ + " }\n"@);
        }
    }

    /// Adds a nested table under the given key: `key:` followed by the
    /// child's entries, which carry one more step of indentation (see
    /// [`YamlTable::nested`]).
    pub fn table(&mut self, key: &str, child: &YamlTable) -> (unit: ())
        ensures
            final(self)@ == old(self)@ + old(self).spec_pending_prefix() + yaml_scalar(key@)
                + ":\n"@ + child@,
            final(self).spec_indent() == old(self).spec_indent(),
            final(self).spec_pending_prefix() == final(self).spec_indent(),
    {
        self.apply_indent();
        append_scalar(&mut self.out, key);
        self.out.append(":\n");
        self.out.append(child.out.as_str());
        proof {
            assert(self.out@ =~= old(self)@ + old(self).spec_pending_prefix() + yaml_scalar(key@)
                + ":\n"@ + child@);
        }
    }

    /// Adds a sequence under the given key: `key:` followed by the
    /// sequence's items, one per line, each preceded by a dash.
    pub fn sequence(&mut self, key: &str, seq: &YamlSequence) -> (unit: ())
        ensures
            final(self)@ == old(self)@ + old(self).spec_pending_prefix() + yaml_scalar(key@)
                + ":\n"@ + seq@,
            final(self).spec_indent() == old(self).spec_indent(),
            final(self).spec_pending_prefix() == final(self).spec_indent(),
    {
        self.apply_indent();
        append_scalar(&mut self.out, key);
        self.out.append(":\n");
        self.out.append(seq.buf.as_str());
        proof {
            assert(self.out@ =~= old(self)@ + old(self).spec_pending_prefix() + yaml_scalar(key@)
                + ":\n"@ + seq@);
        }
    }

    /// Adds an inline sequence under the given key: `key: [ a, b ]`.
    pub fn inline_sequence(&mut self, key: &str, seq: &YamlInlineSequence) -> (unit: ())
        ensures
            final(self)@ == old(self)@ + old(self).spec_pending_prefix() + yaml_scalar(key@)
                + ": ["@ + seq@ + " ]\n"@,
            final(self).spec_indent() == old(self).spec_indent(),
            final(self).spec_pending_prefix() == final(self).spec_indent(),
    {
        self.apply_indent();
        append_scalar(&mut self.out, key);
        self.out.append(": [");
        self.out.append(seq.buf.as_str());
        self.out.append(" ]\n");
        proof {
            assert(self.out@ =~= old(self)@ + old(self).spec_pending_prefix() + yaml_scalar(key@)
                + ": ["@ + seq@ + " ]\n"@);
        }
    }
}

/// A writer for inline YAML tables: `{ k1: v1, k2: v2 }` on a single line.
pub struct YamlInlineTable {
    buf: String,
    first_pair: bool,
}

impl YamlInlineTable {
    /// The text written so far, without the surrounding braces.
    pub closed spec fn view(&self) -> Seq<char> {
        self.buf@
    }

    /// The separator the next pair will carry: one space for the first pair,
    /// a comma and a space after that.
    pub closed spec fn spec_sep(&self) -> Seq<char> {
        if self.first_pair {
            " "@
        } else {
            ", "@
        }
    }

    /// Creates an empty inline table, for attaching to a parent once filled.
    pub fn new() -> (r: YamlInlineTable)
        ensures
            r@ == Seq::<char>::empty(),
            r.spec_sep() == " "@,
    {
        YamlInlineTable { buf: String::new(), first_pair: true }
    }

    /// Writes the pending separator.
    fn seperator(&mut self) -> (unit: ())
        ensures
            final(self)@ == old(self)@ + old(self).spec_sep(),
            final(self).spec_sep() == ", "@,
    {
        if !self.first_pair {
            self.buf.append(", ");
        } else {
            self.buf.append(" ");
            self.first_pair = false;
        }
    }

    /// Adds a string key-value pair.
    pub fn string(&mut self, key: &str, value: &str) -> (unit: ())
        ensures
            final(self)@ == old(self)@ + old(self).spec_sep() + yaml_scalar(key@) + ": "@
                + yaml_scalar(value@),
            final(self).spec_sep() == ", "@,
    {
        self.seperator();
        append_scalar(&mut self.buf, key);
        self.buf.append(": ");
        append_scalar(&mut self.buf, value);
        proof {
            assert(self.buf@ =~= old(self)@ + old(self).spec_sep() + yaml_scalar(key@) + ": "@
                + yaml_scalar(value@));
        }
    }

    /// Adds a boolean key-value pair.
    pub fn boolean(&mut self, key: &str, value: bool) -> (unit: ())
        ensures
            final(self)@ == old(self)@ + old(self).spec_sep() + yaml_scalar(key@) + ": "@
                + yaml_bool(value),
            final(self).spec_sep() == ", "@,
    {
        self.seperator();
        append_scalar(&mut self.buf, key);
        self.buf.append(": ");
        self.buf.append(if value {
            "true"
        } else {
            "false"
        });
        proof {
            assert(self.buf@ =~= old(self)@ + old(self).spec_sep() + yaml_scalar(key@) + ": "@
                + yaml_bool(value));
        }
    }

    /// Adds a null value under the given key.
    pub fn null(&mut self, key: &str) -> (unit: ())
        ensures
            final(self)@ == old(self)@ + old(self).spec_sep() + yaml_scalar(key@) + ": null"@,
            final(self).spec_sep() == ", "@,
    {
        self.seperator();
        append_scalar(&mut self.buf, key);
        self.buf.append(": null");
        proof {
            assert(self.buf@ =~= old(self)@ + old(self).spec_sep() + yaml_scalar(key@)
                + ": null"@);
        }
    }

    /// Adds an inline sequence under the given key: `key: [ a, b ]`.
    pub fn inline_sequence(&mut self, key: &str, seq: &YamlInlineSequence) -> (unit: ())
        ensures
            final(self)@ == old(self)@ + old(self).spec_sep() + yaml_scalar(key@) + ": ["@ + seq@
                + " ]"@,
            final(self).spec_sep() == ", "@,
    {
        self.seperator();
        append_scalar(&mut self.buf, key);
        self.buf.append(": [");
        self.buf.append(seq.buf.as_str());
        self.buf.append(" ]");
        proof {
            assert(self.buf@ =~= old(self)@ + old(self).spec_sep() + yaml_scalar(key@) + ": ["@
                + seq@ + " ]"@);
        }
    }
}

/// A writer for YAML sequences: each item on its own line after a dash.
pub struct YamlSequence {
    buf: String,
}

impl YamlSequence {
    /// The text written so far.
    pub closed spec fn view(&self) -> Seq<char> {
        self.buf@
    }

    /// Creates an empty sequence, for attaching to a parent once filled.
    pub fn new() -> (r: YamlSequence)
        ensures
            r@ == Seq::<char>::empty(),
    {
        YamlSequence { buf: String::new() }
    }

    /// Creates an empty table positioned as a sequence item, for attaching
    /// with [`YamlSequence::table`]: its first entry continues the dash line
    /// and later entries carry the item indentation.
    pub fn item_table(&self) -> (r: YamlTable)
        ensures
            r@ == Seq::<char>::empty(),
            r.spec_indent() == "    "@,
            r.spec_pending_prefix() == Seq::<char>::empty(),
    {
        YamlTable { out: String::new(), indent: "    ".to_owned(), inline_first: true }
    }

    /// Adds a string item: `  - item`.
    pub fn string(&mut self, item: &str) -> (unit: ())
        ensures
            final(self)@ == old(self)@ + "  - "@ + yaml_scalar(item@) + "\n"@,
    {
        self.buf.append("  - ");
        append_scalar(&mut self.buf, item);
        self.buf.append("\n");
        proof {
            assert(self.buf@ =~= old(self)@ + "  - "@ + yaml_scalar(item@) + "\n"@);
        }
    }

    /// Adds a boolean item: `  - true` or `  - false`.
    pub fn boolean(&mut self, value: bool) -> (unit: ())
        ensures
            final(self)@ == old(self)@ + "  - "@ + yaml_bool(value) + "\n"@,
    {
        self.buf.append("  - ");
        self.buf.append(if value {
            "true"
        } else {
            "false"
        });
        self.buf.append("\n");
        proof {
            assert(self.buf@ =~= old(self)@ + "  - "@ + yaml_bool(value) + "\n"@);
        }
    }

    /// Adds a null item: `  - null`.
    pub fn null(&mut self) -> (unit: ())
        ensures
            final(self)@ == old(self)@ + "  - null\n"@,
    {
        self.buf.append("  - null\n");
    }

    /// Adds a comment line: `  # comment`.
    pub fn comment(&mut self, comment: &str) -> (unit: ())
        ensures
            final(self)@ == old(self)@ + "  # "@ + comment@ + "\n"@,
    {
        self.buf.append("  # ");
        self.buf.append(comment);
        self.buf.append("\n");
        proof {
            assert(self.buf@ =~= old(self)@ + "  # "@ + comment@ + "\n"@);
        }
    }

    /// Adds an inline table item: `  - { k: v }`.
    pub fn inline_table(&mut self, t: &YamlInlineTable) -> (unit: ())
        ensures
            final(self)@ == old(self)@ + "  - {"@ + t@ + " }\n"@,
    {
        self.buf.append("  - {");
        self.buf.append(t.buf.as_str());
        self.buf.append(" }\n");
        proof {
            assert(self.buf@ =~= old(self)@ + "  - {"@ + t@ + " }\n"@);
        }
    }

    /// Adds a table item: `  - ` continued by the child's first entry, the
    /// child's later entries indented to line up under it (see
    /// [`YamlSequence::item_table`]).
    pub fn table(&mut self, child: &YamlTable) -> (unit: ())
        ensures
            final(self)@ == old(self)@ + "  - "@ + child@,
    {
        self.buf.append("  - ");
        self.buf.append(child.out.as_str());
        proof {
            assert(self.buf@ =~= old(self)@ + "  - "@ + child@);
        }
    }

    /// Adds an inline sequence item: `  - [ a, b ]`.
    pub fn inline_sequence(&mut self, seq: &YamlInlineSequence) -> (unit: ())
        ensures
            final(self)@ == old(self)@ + "  - ["@ + seq@ + " ]\n"@,
    {
        self.buf.append("  - [");
        self.buf.append(seq.buf.as_str());
        self.buf.append(" ]\n");
        proof {
            assert(self.buf@ =~= old(self)@ + "  - ["@ + seq@ + " ]\n"@);
        }
    }
}

/// A writer for inline YAML sequences: `[ a, b ]` on a single line.
pub struct YamlInlineSequence {
    buf: String,
    first_item: bool,
}

impl YamlInlineSequence {
    /// The text written so far, without the surrounding brackets.
    pub closed spec fn view(&self) -> Seq<char> {
        self.buf@
    }

    /// The separator the next item will carry: one space for the first item,
    /// a comma and a space after that.
    pub closed spec fn spec_sep(&self) -> Seq<char> {
        if self.first_item {
            " "@
        } else {
            ", "@
        }
    }

    /// Creates an empty inline sequence, for attaching to a parent once
    /// filled.
    pub fn new() -> (r: YamlInlineSequence)
        ensures
            r@ == Seq::<char>::empty(),
            r.spec_sep() == " "@,
    {
        YamlInlineSequence { buf: String::new(), first_item: true }
    }

    /// Writes the pending separator.
    fn seperator(&mut self) -> (unit: ())
        ensures
            final(self)@ == old(self)@ + old(self).spec_sep(),
            final(self).spec_sep() == ", "@,
    {
        if !self.first_item {
            self.buf.append(", ");
        } else {
            self.buf.append(" ");
            self.first_item = false;
        }
    }

    /// Adds a string item.
    pub fn string(&mut self, value: &str) -> (unit: ())
        ensures
            final(self)@ == old(self)@ + old(self).spec_sep() + yaml_scalar(value@),
            final(self).spec_sep() == ", "@,
    {
        self.seperator();
        append_scalar(&mut self.buf, value);
        proof {
            assert(self.buf@ =~= old(self)@ + old(self).spec_sep() + yaml_scalar(value@));
        }
    }

    /// Adds a boolean item.
    pub fn boolean(&mut self, value: bool) -> (unit: ())
        ensures
            final(self)@ == old(self)@ + old(self).spec_sep() + yaml_bool(value),
            final(self).spec_sep() == ", "@,
    {
        self.seperator();
        self.buf.append(if value {
            "true"
        } else {
            "false"
        });
        proof {
            assert(self.buf@ =~= old(self)@ + old(self).spec_sep() + yaml_bool(value));
        }
    }

    /// Adds a null item.
    pub fn null(&mut self) -> (unit: ())
        ensures
            final(self)@ == old(self)@ + old(self).spec_sep() + "null"@,
            final(self).spec_sep() == ", "@,
    {
        self.seperator();
        self.buf.append("null");
        proof {
            assert(self.buf@ =~= old(self)@ + old(self).spec_sep() + "null"@);
        }
    }

    /// Adds an inline table item: `{ k: v }`.
    pub fn inline_table(&mut self, t: &YamlInlineTable) -> (unit: ())
        ensures
            final(self)@ == old(self)@ + old(self).spec_sep() + "{"@ + t@ + " }"@,
            final(self).spec_sep() == ", "@,
    {
        self.seperator();
        self.buf.append("{");
        self.buf.append(t.buf.as_str());
        self.buf.append(" }");
        proof {
            assert(self.buf@ =~= old(self)@ + old(self).spec_sep() + "{"@ + t@ + " }"@);
        }
    }
}

} // verus!
