//! Placeholder rendering for menu items: strings may hold placeholders of
//! the form `{{ KEY }}`, which are replaced by the values of a placeholder
//! table.

use vstd::prelude::*;

use crate::yaml::str_chars;

verus! {

/// Replaces every non-overlapping occurrence of `pat` in `s` by `to`,
/// scanning left to right.
pub open spec fn spec_replace_all(s: Seq<char>, pat: Seq<char>, to: Seq<char>) -> Seq<char>
    recommends
        pat.len() > 0,
    decreases s.len(),
{
    if pat.len() == 0 || pat.len() > s.len() {
        s
    } else if s.subrange(0, pat.len() as int) == pat {
        to + spec_replace_all(s.skip(pat.len() as int), pat, to)
    } else {
        seq![s[0]] + spec_replace_all(s.drop_first(), pat, to)
    }
}

/// The text of the placeholder for a key: `{{ KEY }}`.
pub open spec fn spec_placeholder(key: Seq<char>) -> Seq<char> {
    "{{ "@ + key + " }}"@
}

/// Resolves a text against a table: each entry's placeholder is replaced by
/// its value, entries applied in order.
pub open spec fn spec_resolve(text: Seq<char>, entries: Seq<(Seq<char>, Seq<char>)>) -> Seq<char>
    decreases entries.len(),
{
    if entries.len() == 0 {
        text
    } else {
        spec_resolve(
            spec_replace_all(text, spec_placeholder(entries[0].0), entries[0].1),
            entries.drop_first(),
        )
    }
}

/// One placeholder entry at the character level.
pub open spec fn entry_view(e: (String, String)) -> (Seq<char>, Seq<char>) {
    (e.0@, e.1@)
}

/// A placeholder table at the character level.
pub open spec fn entries_view(v: Seq<(String, String)>) -> Seq<(Seq<char>, Seq<char>)> {
    v.map_values(|e: (String, String)| entry_view(e))
}

/// Pushing an entry pushes its view.
proof fn lemma_entries_view_push(v: Seq<(String, String)>, e: (String, String))
    ensures
        entries_view(v.push(e)) == entries_view(v).push(entry_view(e)),
{
    assert(entries_view(v.push(e)) =~= entries_view(v).push(entry_view(e)));
}

/// The table with every entry under `key` removed, order otherwise kept.
pub open spec fn entries_without(
    entries: Seq<(Seq<char>, Seq<char>)>,
    key: Seq<char>,
) -> Seq<(Seq<char>, Seq<char>)>
    decreases entries.len(),
{
    if entries.len() == 0 {
        Seq::<(Seq<char>, Seq<char>)>::empty()
    } else if entries[0].0 == key {
        entries_without(entries.drop_first(), key)
    } else {
        seq![entries[0]] + entries_without(entries.drop_first(), key)
    }
}

/// Extending the input extends the filtered table by the kept entry.
proof fn lemma_entries_without_snoc(entries: Seq<(Seq<char>, Seq<char>)>, key: Seq<char>, i: int)
    requires
        0 <= i < entries.len(),
    ensures
        entries_without(entries.take(i + 1), key) == if entries[i].0 == key {
            entries_without(entries.take(i), key)
        } else {
            entries_without(entries.take(i), key).push(entries[i])
        },
    decreases i,
{
    let a = entries.take(i + 1);
    let b = entries.take(i);
    if i == 0 {
        assert(a.drop_first() =~= Seq::<(Seq<char>, Seq<char>)>::empty());
        assert(b =~= Seq::<(Seq<char>, Seq<char>)>::empty());
        assert(entries_without(b, key) =~= Seq::<(Seq<char>, Seq<char>)>::empty());
        assert(entries_without(a.drop_first(), key) =~= Seq::<(Seq<char>, Seq<char>)>::empty());
        assert(a[0] == entries[0]);
        if entries[0].0 != key {
            assert(entries_without(a, key) =~= entries_without(b, key).push(entries[0]));
        }
    } else {
        lemma_entries_without_snoc(entries.drop_first(), key, i - 1);
        assert(a.drop_first() =~= entries.drop_first().take(i));
        assert(b.drop_first() =~= entries.drop_first().take(i - 1));
        assert(entries.drop_first()[i - 1] == entries[i]);
        if entries[i].0 == key {
            assert(entries_without(a, key) =~= entries_without(b, key));
        } else {
            assert(entries_without(a, key) =~= entries_without(b, key).push(entries[i]));
        }
    }
}

/// True when `pat` occurs in `s` at position `i`.
fn matches_at(cs: &Vec<char>, pcs: &Vec<char>, i: usize) -> (r: bool)
    requires
        i <= cs@.len(),
    ensures
        r == (i + pcs@.len() <= cs@.len() && cs@.subrange(i as int, i + pcs@.len() as int)
            =~= pcs@),
{
    let n = cs.len();
    let m = pcs.len();
    if m > n - i {
        return false;
    }
    let mut k: usize = 0;
    while k < m
        invariant
            0 <= k <= m,
            i + m <= n,
            n == cs@.len(),
            m == pcs@.len(),
            forall|j: int| 0 <= j < k ==> cs@[i + j] == pcs@[j],
        decreases m - k,
    {
        if cs[i + k] != pcs[k] {
            proof {
                assert(cs@.subrange(i as int, i + pcs@.len() as int)[k as int] != pcs@[k as int]);
            }
            return false;
        }
        k += 1;
    }
    proof {
        assert(cs@.subrange(i as int, i + pcs@.len() as int) =~= pcs@);
    }
    true
}

/// Replaces every non-overlapping occurrence of `pat` in `s` by `to`.
pub fn replace_all(s: &str, pat: &str, to: &str) -> (r: String)
    requires
        pat@.len() > 0,
    ensures
        r@ == spec_replace_all(s@, pat@, to@),
{
    let cs = str_chars(s);
    let pcs = str_chars(pat);
    let n = cs.len();
    let plen = pcs.len();
    let mut out = String::new();
    let mut i: usize = 0;
    proof {
        assert(s@.skip(0) =~= s@);
    }
    while i < n
        invariant
            0 <= i <= n,
            n == cs@.len(),
            cs@ == s@,
            pcs@ == pat@,
            plen == pat@.len(),
            plen > 0,
            spec_replace_all(s@, pat@, to@) == out@ + spec_replace_all(
                s@.skip(i as int),
                pat@,
                to@,
            ),
        decreases n - i,
    {
        let ghost rest = s@.skip(i as int);
        if matches_at(&cs, &pcs, i) {
            proof {
                assert(rest.subrange(0, plen as int) =~= cs@.subrange(
                    i as int,
                    i + pat@.len() as int,
                ));
                assert(rest.skip(plen as int) =~= s@.skip(i + plen));
            }
            out.append(to);
            i += plen;
            proof {
                assert(out@ + spec_replace_all(s@.skip(i as int), pat@, to@) =~= spec_replace_all(
                    s@,
                    pat@,
                    to@,
                ));
            }
        } else {
            proof {
                if plen <= rest.len() {
                    assert(rest.subrange(0, plen as int) != pat@) by {
                        if rest.subrange(0, plen as int) == pat@ {
                            assert(cs@.subrange(i as int, i + pat@.len() as int) =~= rest.subrange(
                                0,
                                plen as int,
                            ));
                        }
                    }
                }
                assert(rest.drop_first() =~= s@.skip(i + 1));
                assert(rest[0] == s@[i as int]);
            }
            crate::names::push_char(&mut out, cs[i]);
            i += 1;
            proof {
                assert(out@ + spec_replace_all(s@.skip(i as int), pat@, to@) =~= spec_replace_all(
                    s@,
                    pat@,
                    to@,
                ));
            }
        }
    }
    proof {
        assert(s@.skip(n as int).len() == 0);
        assert(spec_replace_all(s@.skip(n as int), pat@, to@) =~= Seq::<char>::empty());
        assert(out@ =~= spec_replace_all(s@, pat@, to@));
    }
    out
}

/// A string that may hold `{{ KEY }}` placeholders.
#[derive(Debug, Clone, PartialEq, Eq, Hash)]
pub struct PlaceholderString(pub String);

/// The placeholder table built once per menu installation.
#[derive(Debug, Clone, PartialEq, Eq)]
pub struct BaseMenuItemPlaceholders {
    placeholders: Vec<(String, String)>,
}

/// The placeholder table refined for one menu item: the base table plus the
/// item's location.
#[derive(Debug, Clone, PartialEq, Eq)]
pub struct MenuItemPlaceholders {
    placeholders: Vec<(String, String)>,
}

impl BaseMenuItemPlaceholders {
    /// The entries, as character sequences.
    pub closed spec fn view(&self) -> Seq<(Seq<char>, Seq<char>)> {
        entries_view(self.placeholders@)
    }

    /// Builds the table from its entries.
    pub fn from_entries(entries: Vec<(String, String)>) -> (r: BaseMenuItemPlaceholders)
        ensures
            r@ == entries_view(entries@),
    {
        BaseMenuItemPlaceholders { placeholders: entries }
    }

    /// Refines the table for one menu item: every base entry except any
    /// prior `MENU_ITEM_LOCATION` binding, then the item's location under
    /// the `MENU_ITEM_LOCATION` key, so the new binding is the one that
    /// applies.
    pub fn refine(&self, menu_item_location: &str) -> (r: MenuItemPlaceholders)
        ensures
            r@ =~= entries_without(self@, "MENU_ITEM_LOCATION"@).push(
                ("MENU_ITEM_LOCATION"@, menu_item_location@),
            ),
    {
        let mut entries: Vec<(String, String)> = Vec::new();
        let n = self.placeholders.len();
        let mut i: usize = 0;
        proof {
            assert(entries_view(entries@) =~= entries_without(
                self@.take(0),
                "MENU_ITEM_LOCATION"@,
            ));
        }
        while i < n
            invariant
                0 <= i <= n,
                n == self.placeholders@.len(),
                entries_view(entries@) == entries_without(
                    self@.take(i as int),
                    "MENU_ITEM_LOCATION"@,
                ),
            decreases n - i,
        {
            let k = self.placeholders[i].0.clone();
            let v = self.placeholders[i].1.clone();
            proof {
                assert(k@ == self.placeholders@[i as int].0@);
                assert(v@ == self.placeholders@[i as int].1@);
                assert(self@[i as int] == entry_view(self.placeholders@[i as int]));
                lemma_entries_without_snoc(self@, "MENU_ITEM_LOCATION"@, i as int);
            }
            if !crate::names::str_eq(k.as_str(), "MENU_ITEM_LOCATION") {
                let pair = (k, v);
                let ghost pairg = pair;
                let ghost evec = entries@;
                entries.push(pair);
                proof {
                    lemma_entries_view_push(evec, pairg);
                    assert(entry_view(pairg) == self@[i as int]);
                    assert(entries_view(entries@) =~= entries_without(
                        self@.take(i as int + 1),
                        "MENU_ITEM_LOCATION"@,
                    ));
                }
            } else {
                proof {
                    assert(self@[i as int].0 == "MENU_ITEM_LOCATION"@);
                    assert(entries_view(entries@) =~= entries_without(
                        self@.take(i as int + 1),
                        "MENU_ITEM_LOCATION"@,
                    ));
                }
            }
            i += 1;
        }
        proof {
            assert(self@.take(n as int) =~= self@);
        }
        let ghost before = entries_view(entries@);
        let ghost evec2 = entries@;
        let loc_pair = ("MENU_ITEM_LOCATION".to_owned(), menu_item_location.to_owned());
        let ghost locg = loc_pair;
        entries.push(loc_pair);
        proof {
            lemma_entries_view_push(evec2, locg);
            assert(entries_view(entries@) =~= before.push(
                ("MENU_ITEM_LOCATION"@, menu_item_location@),
            ));
        }
        MenuItemPlaceholders { placeholders: entries }
    }

    /// Resolves a text against the base table.
    pub fn resolve_text(&self, text: &str) -> (r: String)
        ensures
            r@ == spec_resolve(text@, self@),
    {
        resolve_entries(text, &self.placeholders, Ghost(self@))
    }
}

impl MenuItemPlaceholders {
    /// The entries, as character sequences.
    pub closed spec fn view(&self) -> Seq<(Seq<char>, Seq<char>)> {
        entries_view(self.placeholders@)
    }

    /// Builds the table from its entries.
    pub fn from_entries(entries: Vec<(String, String)>) -> (r: MenuItemPlaceholders)
        ensures
            r@ == entries_view(entries@),
    {
        MenuItemPlaceholders { placeholders: entries }
    }
}

impl PlaceholderString {
    /// Replaces each table entry's placeholder in this string by its value.
    pub fn resolve(&self, placeholders: &MenuItemPlaceholders) -> (r: String)
        ensures
            r@ == spec_resolve(self.0@, placeholders@),
    {
        resolve_entries(self.0.as_str(), &placeholders.placeholders, Ghost(placeholders@))
    }
}

/// Resolves an optional placeholder string: the resolved text, or the
/// default when absent.
pub fn resolve(input: &Option<PlaceholderString>, placeholders: &MenuItemPlaceholders, default: &str) -> (r:
    String)
    ensures
        match input {
            Some(s) => r@ == spec_resolve(s.0@, placeholders@),
            None => r@ == default@,
        },
{
    match input {
        Some(s) => s.resolve(placeholders),
        None => default.to_owned(),
    }
}

/// Applies every entry's replacement, in order.
fn resolve_entries(
    text: &str,
    entries: &Vec<(String, String)>,
    Ghost(view): Ghost<Seq<(Seq<char>, Seq<char>)>>,
) -> (r: String)
    requires
        view == entries_view(entries@),
    ensures
        r@ == spec_resolve(text@, view),
{
    let n = entries.len();
    let mut cur = text.to_owned();
    let mut i: usize = 0;
    proof {
        assert(view.skip(0) =~= view);
    }
    while i < n
        invariant
            0 <= i <= n,
            n == entries@.len(),
            n == view.len(),
            view == entries@.map_values(|e: (String, String)| (e.0@, e.1@)),
            spec_resolve(text@, view) == spec_resolve(cur@, view.skip(i as int)),
        decreases n - i,
    {
        let mut pat = String::new();
        pat.append("{{ ");
        pat.append(entries[i].0.as_str());
        pat.append(" }}");
        proof {
            assert(pat@ =~= spec_placeholder(view[i as int].0));
            assert(pat@.len() > 0) by {
                reveal_strlit("{{ ");
            }
        }
        let next = replace_all(cur.as_str(), pat.as_str(), entries[i].1.as_str());
        proof {
            assert(view.skip(i as int)[0] == view[i as int]);
            assert(view.skip(i as int).drop_first() =~= view.skip(i as int + 1));
        }
        cur = next;
        i += 1;
    }
    proof {
        assert(view.skip(n as int).len() == 0);
    }
    cur
}

} // verus!
