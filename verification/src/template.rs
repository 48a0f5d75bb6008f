//! `{{param}}` substitution in argument and working-directory templates.

use vstd::prelude::*;
use crate::text::{chars_of, string_from_chars};

verus! {

/// What one parameter's value puts into a template.
pub enum ParamValue {
    /// A JSON string: its contents, without quotes or escapes.
    Str(String),
    /// Any other JSON value (number, boolean, null, array, object): its
    /// compact JSON text, such as `42`, `true` or `{"a":1}`.
    Json(String),
}

/// One `key: value` member of the parameters object.
pub struct ParamEntry {
    pub key: String,
    pub value: ParamValue,
}

/// The parameters handed to a tool, as the substitution reads them.
pub enum ToolParams {
    /// A JSON object: its members in the order the object yields them.
    Object(Vec<ParamEntry>),
    /// Any JSON value that is not an object.
    NotObject,
}

impl ParamValue {
    /// The characters that replace a placeholder of this value.
    pub open spec fn spec_text(self) -> Seq<char> {
        match self {
            ParamValue::Str(s) => s@,
            ParamValue::Json(t) => t@,
        }
    }
}

impl ParamEntry {
    /// The key and the replacement text of this member.
    pub open spec fn spec_pair(self) -> (Seq<char>, Seq<char>) {
        (self.key@, self.value.spec_text())
    }
}

/// The placeholder `{{key}}`.
pub open spec fn placeholder(key: Seq<char>) -> Seq<char> {
    seq!['{', '{'] + key + seq!['}', '}']
}

/// `pat` occurs in `s` starting at index `i`.
pub open spec fn occurs_at(s: Seq<char>, pat: Seq<char>, i: int) -> bool {
    0 <= i && i + pat.len() <= s.len() && s.subrange(i, i + pat.len()) == pat
}

/// `pat` occurs somewhere in `s`.
pub open spec fn occurs_in(s: Seq<char>, pat: Seq<char>) -> bool {
    exists|i: int| occurs_at(s, pat, i)
}

/// Each character of `t`, marked as coming from the template.
pub open spec fn unmarked(t: Seq<char>) -> Seq<(char, bool)> {
    t.map_values(|c: char| (c, false))
}

/// Each character of `t`, marked as inserted from a value.
pub open spec fn marked(t: Seq<char>) -> Seq<(char, bool)> {
    t.map_values(|c: char| (c, true))
}

/// The characters of a marked text.
pub open spec fn chars_of_marked(s: Seq<(char, bool)>) -> Seq<char> {
    s.map_values(|m: (char, bool)| m.0)
}

/// `pat` starts `s`, in characters that all came from the template.
pub open spec fn open_match(s: Seq<(char, bool)>, pat: Seq<char>) -> bool {
    pat.len() <= s.len() && forall|j: int| 0 <= j < pat.len() ==> (#[trigger] s[j]).0 == pat[j] && !s[j].1
}

/// `s` with every occurrence of the non-empty `pat` in template characters
/// replaced by `rep`, marked as inserted; scanning from the left and never
/// overlapping two occurrences, as `str::replace` does on the template's text.
pub open spec fn replace_unmarked(s: Seq<(char, bool)>, pat: Seq<char>, rep: Seq<char>) -> Seq<
    (char, bool),
>
    decreases s.len(),
{
    if pat.len() == 0 || s.len() < pat.len() {
        s
    } else if open_match(s, pat) {
        marked(rep) + replace_unmarked(s.skip(pat.len() as int), pat, rep)
    } else {
        seq![s[0]] + replace_unmarked(s.drop_first(), pat, rep)
    }
}

/// The members applied in turn, each to the template characters left.
pub open spec fn substitute_marked(s: Seq<(char, bool)>, pairs: Seq<(Seq<char>, Seq<char>)>) -> Seq<
    (char, bool),
>
    decreases pairs.len(),
{
    if pairs.len() == 0 {
        s
    } else {
        substitute_marked(
            replace_unmarked(s, placeholder(pairs[0].0), pairs[0].1),
            pairs.drop_first(),
        )
    }
}

/// The template with each `{{key}}` of a `(key, text)` pair replaced by that
/// text: the members in order, each replacing its placeholder wherever it
/// stands in what is left of the template, and no inserted text ever
/// searched for placeholders.
pub open spec fn substitute_pairs(template: Seq<char>, pairs: Seq<(Seq<char>, Seq<char>)>) -> Seq<
    char,
> {
    chars_of_marked(substitute_marked(unmarked(template), pairs))
}

/// What `substitute_params(template, params)` returns.
pub open spec fn spec_substitute_params(template: Seq<char>, params: ToolParams) -> Seq<char> {
    match params {
        ToolParams::Object(entries) => substitute_pairs(
            template,
            entries@.map_values(|e: ParamEntry| e.spec_pair()),
        ),
        ToolParams::NotObject => template,
    }
}

/// The characters of `{{key}}`.
fn placeholder_chars(key: &String) -> (r: Vec<char>)
    ensures
        r@ == placeholder(key@),
{
    let mut r: Vec<char> = Vec::new();
    r.push('{');
    r.push('{');
    let k = chars_of(key.as_str());
    let mut i: usize = 0;
    while i < k.len()
        invariant
            i <= k@.len(),
            r@ == seq!['{', '{'] + k@.take(i as int),
        decreases k@.len() - i,
    {
        r.push(k[i]);
        assert(k@.take(i + 1) =~= k@.take(i as int).push(k@[i as int]));
        i = i + 1;
    }
    assert(k@.take(k@.len() as int) =~= k@);
    r.push('}');
    r.push('}');
    assert(r@ =~= placeholder(key@));
    r
}

/// Whether `pat` occurs at index `i` of `s` in template characters.
fn open_match_at(s: &Vec<(char, bool)>, pat: &Vec<char>, i: usize) -> (b: bool)
    requires
        i + pat@.len() <= s@.len(),
    ensures
        b == open_match(s@.skip(i as int), pat@),
{
    let ghost t = s@.skip(i as int);
    let n = s.len();
    let mut j: usize = 0;
    while j < pat.len()
        invariant
            n == s@.len(),
            j <= pat@.len(),
            i + pat@.len() <= n,
            t == s@.skip(i as int),
            forall|m: int| 0 <= m < j ==> t[m].0 == pat@[m] && !t[m].1,
        decreases pat@.len() - j,
    {
        let (c, inserted) = s[i + j];
        assert(t[j as int] == s@[i + j]);
        if c != pat[j] || inserted {
            return false;
        }
        j = j + 1;
    }
    true
}

/// `s` with every occurrence of `pat` in template characters replaced by `rep`.
fn replace_unmarked_vec(s: &Vec<(char, bool)>, pat: &Vec<char>, rep: &Vec<char>) -> (r: Vec<
    (char, bool),
>)
    requires
        pat@.len() > 0,
    ensures
        r@ == replace_unmarked(s@, pat@, rep@),
{
    let mut out: Vec<(char, bool)> = Vec::new();
    let mut i: usize = 0;
    let len = s.len();
    let plen = pat.len();
    assert(s@.skip(0) =~= s@);
    while i < len
        invariant
            i <= len,
            len == s@.len(),
            plen == pat@.len(),
            plen > 0,
            replace_unmarked(s@, pat@, rep@) == out@ + replace_unmarked(s@.skip(i as int), pat@, rep@),
        decreases len - i,
    {
        let ghost rest = s@.skip(i as int);
        if plen <= len - i && open_match_at(s, pat, i) {
            assert(rest.skip(plen as int) =~= s@.skip(i + plen));
            let mut k: usize = 0;
            let ghost mid = out@;
            while k < rep.len()
                invariant
                    k <= rep@.len(),
                    out@ == mid + marked(rep@.take(k as int)),
                decreases rep@.len() - k,
            {
                out.push((rep[k], true));
                assert(marked(rep@.take(k + 1)) =~= marked(rep@.take(k as int)).push((rep@[k as int], true)));
                k = k + 1;
            }
            assert(rep@.take(rep@.len() as int) =~= rep@);
            i = i + plen;
        } else {
            if plen > len - i {
                assert(rest.drop_first().len() < plen);
            }
            assert(rest.drop_first() =~= s@.skip(i + 1));
            assert(rest[0] == s@[i as int]);
            out.push(s[i]);
            i = i + 1;
        }
    }
    assert(s@.skip(len as int).len() == 0);
    out
}

/// Substitute `{{param_name}}` placeholders in a template string with values
/// from the parameters object. Unknown placeholders are left as-is; a string
/// value goes in as its contents, any other value as its JSON text, literally:
/// inserted text is not searched for placeholders again.
pub fn substitute_params(template: &str, params: &ToolParams) -> (r: String)
    ensures
        r@ == spec_substitute_params(template@, *params),
{
    match params {
        ToolParams::NotObject => String::from_str(template),
        ToolParams::Object(entries) => {
            let ghost pairs = entries@.map_values(|e: ParamEntry| e.spec_pair());
            let ts = chars_of(template);
            let mut cur: Vec<(char, bool)> = Vec::new();
            let mut k: usize = 0;
            while k < ts.len()
                invariant
                    k <= ts@.len(),
                    cur@ == unmarked(ts@.take(k as int)),
                decreases ts@.len() - k,
            {
                cur.push((ts[k], false));
                assert(unmarked(ts@.take(k + 1)) =~= unmarked(ts@.take(k as int)).push((ts@[k as int], false)));
                k = k + 1;
            }
            assert(ts@.take(ts@.len() as int) =~= ts@);
            let mut i: usize = 0;
            assert(pairs.skip(0) =~= pairs);
            while i < entries.len()
                invariant
                    i <= entries@.len(),
                    pairs == entries@.map_values(|e: ParamEntry| e.spec_pair()),
                    substitute_marked(unmarked(template@), pairs) == substitute_marked(
                        cur@,
                        pairs.skip(i as int),
                    ),
                decreases entries@.len() - i,
            {
                let entry = &entries[i];
                let pat = placeholder_chars(&entry.key);
                let rep = match &entry.value {
                    ParamValue::Str(s) => chars_of(s.as_str()),
                    ParamValue::Json(t) => chars_of(t.as_str()),
                };
                proof {
                    let rest = pairs.skip(i as int);
                    assert(rest[0] == (entry.key@, entry.value.spec_text()));
                    assert(rest.drop_first() =~= pairs.skip(i + 1));
                }
                cur = replace_unmarked_vec(&cur, &pat, &rep);
                i = i + 1;
            }
            assert(pairs.skip(i as int).len() == 0);
            let mut out: Vec<char> = Vec::new();
            let mut j: usize = 0;
            while j < cur.len()
                invariant
                    j <= cur@.len(),
                    out@ == chars_of_marked(cur@.take(j as int)),
                decreases cur@.len() - j,
            {
                out.push(cur[j].0);
                assert(chars_of_marked(cur@.take(j + 1)) =~= chars_of_marked(cur@.take(j as int)).push(
                    cur@[j as int].0,
                ));
                j = j + 1;
            }
            assert(cur@.take(cur@.len() as int) =~= cur@);
            string_from_chars(out.as_slice())
        },
    }
}

/// A pattern that does not occur in the characters leaves the text unchanged.
proof fn lemma_replace_unmarked_absent(s: Seq<(char, bool)>, pat: Seq<char>, rep: Seq<char>)
    requires
        pat.len() > 0,
        !occurs_in(chars_of_marked(s), pat),
    ensures
        replace_unmarked(s, pat, rep) == s,
    decreases s.len(),
{
    let cs = chars_of_marked(s);
    if s.len() >= pat.len() {
        if open_match(s, pat) {
            assert(cs.subrange(0, pat.len() as int) =~= pat);
            assert(occurs_at(cs, pat, 0));
        }
        let t = s.drop_first();
        assert(!occurs_in(chars_of_marked(t), pat)) by {
            let ct = chars_of_marked(t);
            if occurs_in(ct, pat) {
                let i = choose|i: int| occurs_at(ct, pat, i);
                assert(ct.subrange(i, i + pat.len()) =~= cs.subrange(i + 1, i + 1 + pat.len()));
                assert(occurs_at(cs, pat, i + 1));
            }
        }
        lemma_replace_unmarked_absent(t, pat, rep);
        assert(seq![s[0]] + t =~= s);
    }
}

/// Inserted characters are never replaced again.
proof fn lemma_replace_unmarked_inserted(s: Seq<(char, bool)>, pat: Seq<char>, rep: Seq<char>)
    requires
        pat.len() > 0,
        forall|j: int| 0 <= j < s.len() ==> (#[trigger] s[j]).1,
    ensures
        replace_unmarked(s, pat, rep) == s,
    decreases s.len(),
{
    if s.len() >= pat.len() {
        assert(!open_match(s, pat)) by {
            assert(s[0].1);
            if open_match(s, pat) {
                assert(s[0].0 == pat[0] && !s[0].1);
            }
        }
        let t = s.drop_first();
        assert forall|j: int| 0 <= j < t.len() implies (#[trigger] t[j]).1 by {
            assert(t[j] == s[j + 1]);
        }
        lemma_replace_unmarked_inserted(t, pat, rep);
        assert(seq![s[0]] + t =~= s);
    }
}

/// Members whose placeholders do not occur in the characters change nothing.
proof fn lemma_substitute_marked_absent(s: Seq<(char, bool)>, pairs: Seq<(Seq<char>, Seq<char>)>)
    requires
        forall|i: int|
            0 <= i < pairs.len() ==> !occurs_in(chars_of_marked(s), placeholder(#[trigger] pairs[i].0)),
    ensures
        substitute_marked(s, pairs) == s,
    decreases pairs.len(),
{
    if pairs.len() > 0 {
        lemma_replace_unmarked_absent(s, placeholder(pairs[0].0), pairs[0].1);
        let rest = pairs.drop_first();
        assert forall|i: int| 0 <= i < rest.len() implies !occurs_in(
            chars_of_marked(s),
            placeholder(#[trigger] rest[i].0),
        ) by {
            assert(rest[i] == pairs[i + 1]);
        }
        lemma_substitute_marked_absent(s, rest);
    }
}

/// A text of inserted characters only is left as it is by every member.
proof fn lemma_substitute_marked_inserted(s: Seq<(char, bool)>, pairs: Seq<(Seq<char>, Seq<char>)>)
    requires
        forall|j: int| 0 <= j < s.len() ==> (#[trigger] s[j]).1,
    ensures
        substitute_marked(s, pairs) == s,
    decreases pairs.len(),
{
    if pairs.len() > 0 {
        lemma_replace_unmarked_inserted(s, placeholder(pairs[0].0), pairs[0].1);
        lemma_substitute_marked_inserted(s, pairs.drop_first());
    }
}

/// Unknown placeholders are left as-is: a template in which no member's
/// placeholder occurs comes back unchanged.
pub proof fn lemma_substitute_without_placeholders(template: Seq<char>, pairs: Seq<(Seq<char>, Seq<char>)>)
    requires
        forall|i: int| 0 <= i < pairs.len() ==> !occurs_in(template, placeholder(#[trigger] pairs[i].0)),
    ensures
        substitute_pairs(template, pairs) == template,
{
    assert(chars_of_marked(unmarked(template)) =~= template);
    lemma_substitute_marked_absent(unmarked(template), pairs);
}

/// A value is inserted as a literal string and never searched for
/// placeholders: the template `{{key}}` of member `j`, in which no earlier
/// member's placeholder occurs, becomes exactly that member's text, whatever
/// the text holds and whatever members follow.
pub proof fn lemma_substitute_inserts_literally(pairs: Seq<(Seq<char>, Seq<char>)>, j: int)
    requires
        0 <= j < pairs.len(),
        forall|m: int|
            0 <= m < j ==> !occurs_in(placeholder(pairs[j].0), placeholder(#[trigger] pairs[m].0)),
    ensures
        substitute_pairs(placeholder(pairs[j].0), pairs) == pairs[j].1,
{
    let pat = placeholder(pairs[j].0);
    let text = pairs[j].1;
    let u = unmarked(pat);
    assert(chars_of_marked(u) =~= pat);
    assert forall|m: int| 0 <= m < j implies !occurs_in(
        chars_of_marked(u),
        placeholder(#[trigger] pairs.take(j)[m].0),
    ) by {
        assert(pairs.take(j)[m] == pairs[m]);
    }
    lemma_substitute_marked_absent(u, pairs.take(j));
    lemma_substitute_marked_split(u, pairs, j);
    assert(open_match(u, pat));
    let empty = u.skip(pat.len() as int);
    assert(empty.len() == 0);
    assert(replace_unmarked(empty, pat, text) == empty);
    assert(replace_unmarked(u, pat, text) =~= marked(text));
    let after = pairs.skip(j + 1);
    assert forall|k: int| 0 <= k < marked(text).len() implies (#[trigger] marked(text)[k]).1 by {}
    lemma_substitute_marked_inserted(marked(text), after);
    assert(pairs.skip(j)[0] == pairs[j]);
    assert(pairs.skip(j).drop_first() =~= after);
    assert(chars_of_marked(marked(text)) =~= text);
}

/// Applying the members is applying the first `j`, then the rest.
proof fn lemma_substitute_marked_split(s: Seq<(char, bool)>, pairs: Seq<(Seq<char>, Seq<char>)>, j: int)
    requires
        0 <= j <= pairs.len(),
    ensures
        substitute_marked(s, pairs) == substitute_marked(substitute_marked(s, pairs.take(j)), pairs.skip(j)),
    decreases j,
{
    if j == 0 {
        assert(pairs.take(0).len() == 0);
        assert(pairs.skip(0) =~= pairs);
    } else {
        let s1 = replace_unmarked(s, placeholder(pairs[0].0), pairs[0].1);
        let rest = pairs.drop_first();
        lemma_substitute_marked_split(s1, rest, j - 1);
        assert(pairs.take(j)[0] == pairs[0]);
        assert(pairs.take(j).drop_first() =~= rest.take(j - 1));
        assert(rest.skip(j - 1) =~= pairs.skip(j));
    }
}

/// Each member's value goes in as exactly its own text: a JSON string as its
/// contents, any other value as its JSON text, character for character. The
/// template `{{key}}` of member `j`, in which no earlier member's placeholder
/// occurs, becomes that text whatever the other members are.
pub proof fn lemma_member_value_inserted(entries: Vec<ParamEntry>, j: int)
    requires
        0 <= j < entries@.len(),
        forall|m: int|
            0 <= m < j ==> !occurs_in(
                placeholder(entries@[j].key@),
                placeholder(#[trigger] entries@[m].key@),
            ),
    ensures
        spec_substitute_params(placeholder(entries@[j].key@), ToolParams::Object(entries)) == match entries@[j].value {
            ParamValue::Str(s) => s@,
            ParamValue::Json(t) => t@,
        },
{
    let pairs = entries@.map_values(|e: ParamEntry| e.spec_pair());
    assert(pairs[j].0 == entries@[j].key@);
    assert forall|m: int| 0 <= m < j implies !occurs_in(
        placeholder(pairs[j].0),
        placeholder(#[trigger] pairs[m].0),
    ) by {
        assert(pairs[m].0 == entries@[m].key@);
    }
    lemma_substitute_inserts_literally(pairs, j);
}

/// The template `{{key}}` with that one member becomes exactly the member's text.
pub proof fn lemma_substitute_inserts_verbatim(key: Seq<char>, text: Seq<char>)
    ensures
        substitute_pairs(placeholder(key), seq![(key, text)]) == text,
{
    lemma_substitute_inserts_literally(seq![(key, text)], 0);
}

} // verus!
