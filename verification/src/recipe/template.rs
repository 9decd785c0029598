//! Flat variable substitution: `{{name}}` in a text stands for the value of
//! the variable `name`.

use crate::error::{Failure, GetapiError};
use crate::pattern::{first_groups, regex_first_groups};
use crate::strmap::{has_key, lookup, Pairs, StrMap};
use crate::text::{
    chars_of, concat, concat3, contains_string, find, find_from, join, join_strings,
    lemma_find_from, lemma_texts_push, push_all, slice_of, string_of, texts,
};
use vstd::prelude::*;

verus! {

/// The regular expression of a placeholder: two opening braces, a name made
/// of word characters, two closing braces.
pub const PLACEHOLDER: &'static str = "\\{\\{(\\w+)\\}\\}";

/// The placeholder that stands for the variable `name`.
pub open spec fn placeholder(name: Seq<char>) -> Seq<char> {
    "{{"@ + name + "}}"@
}

/// How a variable without a value is shown in lenient mode.
pub open spec fn marker(name: Seq<char>) -> Seq<char> {
    "<"@ + name + ">"@
}

/// What replaces the placeholder of `name`: the variable's value, or the
/// marker where it has none.
pub open spec fn replacement(name: Seq<char>, vars: Pairs) -> Seq<char> {
    match lookup(vars, name) {
        Some(v) => v,
        None => marker(name),
    }
}

/// The groups that took part in their match, in order.
pub open spec fn present(groups: Seq<Option<Seq<char>>>) -> Seq<Seq<char>>
    decreases groups.len(),
{
    if groups.len() == 0 {
        Seq::empty()
    } else {
        match groups.last() {
            Some(name) => present(groups.drop_last()).push(name),
            None => present(groups.drop_last()),
        }
    }
}

/// The names of the placeholders of `template`, in the order in which they
/// occur, as the regular expression finds them.
pub open spec fn placeholder_names(template: Seq<char>) -> Result<Seq<Seq<char>>, Seq<char>> {
    match regex_first_groups(PLACEHOLDER@, template) {
        Ok(groups) => Ok(present(groups)),
        Err(e) => Err(e),
    }
}

/// The text of `template` from `pos` on, in which, for each of `names` in
/// turn, the next occurrence of its placeholder is replaced. A name whose
/// placeholder does not occur any more is passed over.
pub open spec fn substitute_from(
    template: Seq<char>,
    pos: int,
    names: Seq<Seq<char>>,
    vars: Pairs,
) -> Seq<char>
    decreases names.len(),
{
    if names.len() == 0 {
        template.subrange(pos, template.len() as int)
    } else {
        match find_from(template, placeholder(names[0]), pos) {
            Some(p) => template.subrange(pos, p) + replacement(names[0], vars) + substitute_from(
                template,
                p + placeholder(names[0]).len(),
                names.drop_first(),
                vars,
            ),
            None => substitute_from(template, pos, names.drop_first(), vars),
        }
    }
}

/// `template` with the placeholders of `names` replaced, one occurrence for
/// each name, from left to right.
pub open spec fn substitute(template: Seq<char>, names: Seq<Seq<char>>, vars: Pairs) -> Seq<
    char,
> {
    substitute_from(template, 0, names, vars)
}

/// The names without a value, each once, in the order of their first
/// occurrence.
pub open spec fn missing(names: Seq<Seq<char>>, vars: Pairs) -> Seq<Seq<char>>
    decreases names.len(),
{
    if names.len() == 0 {
        Seq::empty()
    } else {
        let before = missing(names.drop_last(), vars);
        if has_key(vars, names.last()) || before.contains(names.last()) {
            before
        } else {
            before.push(names.last())
        }
    }
}

/// Strict expansion of a template whose placeholders are `names`.
pub open spec fn strict(template: Seq<char>, names: Seq<Seq<char>>, vars: Pairs) -> Result<
    Seq<char>,
    Failure,
> {
    if missing(names, vars).len() > 0 {
        Err(Failure::TemplateVarNotFound(join(missing(names, vars), ", "@)))
    } else {
        Ok(substitute(template, names, vars))
    }
}

/// Strict expansion: the text with every placeholder replaced by its value,
/// or the error that lists the names without a value.
pub open spec fn expanded(template: Seq<char>, vars: Pairs) -> Result<Seq<char>, Failure> {
    match placeholder_names(template) {
        Ok(names) => strict(template, names, vars),
        Err(e) => Err(Failure::InvalidRecipe("Bad placeholder pattern: "@ + e)),
    }
}

/// Lenient expansion: as strict expansion, but a name without a value is
/// shown as its marker.
pub open spec fn expanded_leniently(template: Seq<char>, vars: Pairs) -> Seq<char> {
    match placeholder_names(template) {
        Ok(names) => substitute(template, names, vars),
        Err(e) => template,
    }
}

/// The view of the outcome of an expansion.
pub open spec fn outcome(r: Result<String, GetapiError>) -> Result<Seq<char>, Failure> {
    match r {
        Ok(s) => Ok(s@),
        Err(e) => Err(e@),
    }
}

/// A text without placeholders stays as it is, in both modes.
pub proof fn theorem_text_without_placeholders_is_kept(template: Seq<char>, vars: Pairs)
    requires
        placeholder_names(template) == Ok::<Seq<Seq<char>>, Seq<char>>(Seq::empty()),
    ensures
        expanded(template, vars) == Ok::<Seq<char>, Failure>(template),
        expanded_leniently(template, vars) == template,
{
    assert(template.subrange(0, template.len() as int) =~= template);
}

/// Where strict expansion succeeds, lenient expansion gives the same text.
pub proof fn theorem_lenient_expansion_agrees(template: Seq<char>, vars: Pairs)
    ensures
        expanded(template, vars) matches Ok(text) ==> expanded_leniently(template, vars) == text,
{
}

/// Strict expansion succeeds exactly where every name has a value.
pub proof fn theorem_strict_expansion_needs_every_value(
    template: Seq<char>,
    names: Seq<Seq<char>>,
    vars: Pairs,
)
    ensures
        strict(template, names, vars) is Ok <==> forall|i: int|
            0 <= i < names.len() ==> has_key(vars, names[i]),
{
    let absent = missing(names, vars);
    if absent.len() > 0 {
        assert(absent.contains(absent[0]));
        lemma_missing(names, vars, absent[0]);
        let i = choose|i: int| 0 <= i < names.len() && names[i] == absent[0];
        assert(!has_key(vars, names[i]));
    } else {
        assert forall|i: int| 0 <= i < names.len() implies has_key(vars, names[i]) by {
            assert(names.contains(names[i]));
            lemma_missing(names, vars, names[i]);
        }
    }
}

/// A name is reported missing exactly if it is one of `names` and has no
/// value.
pub proof fn lemma_missing(names: Seq<Seq<char>>, vars: Pairs, n: Seq<char>)
    ensures
        missing(names, vars).contains(n) <==> names.contains(n) && !has_key(vars, n),
    decreases names.len(),
{
    if names.len() > 0 {
        let front = names.drop_last();
        let last = names.last();
        lemma_missing(front, vars, n);
        let before = missing(front, vars);
        let now = missing(names, vars);
        if names.contains(n) {
            let i = choose|i: int| 0 <= i < names.len() && names[i] == n;
            if i < front.len() {
                assert(front[i] == n);
                assert(front.contains(n));
            }
        }
        if front.contains(n) {
            let i = choose|i: int| 0 <= i < front.len() && front[i] == n;
            assert(names[i] == n);
        }
        assert(names[names.len() - 1] == last);
        if now.contains(n) {
            let i = choose|i: int| 0 <= i < now.len() && now[i] == n;
            if i < before.len() {
                assert(before[i] == n);
                assert(before.contains(n));
            }
        }
        if before.contains(n) {
            let i = choose|i: int| 0 <= i < before.len() && before[i] == n;
            assert(now[i] == n);
        }
        if now != before {
            assert(now[now.len() - 1] == last);
        }
    }
}

/// The names that the regular expression captured, without the groups that
/// took no part in their match.
fn present_names(groups: Vec<Option<String>>) -> (out: Vec<String>)
    ensures
        texts(out@) == present(crate::pattern::optional_texts(groups@)),
{
    let ghost all = crate::pattern::optional_texts(groups@);
    let mut out: Vec<String> = Vec::new();
    let mut i: usize = 0;
    assert(all.take(0) =~= Seq::empty());
    while i < groups.len()
        invariant
            i <= groups.len(),
            all == crate::pattern::optional_texts(groups@),
            texts(out@) == present(all.take(i as int)),
        decreases groups.len() - i,
    {
        assert(all.take(i as int + 1).drop_last() =~= all.take(i as int));
        assert(all.take(i as int + 1).last() == all[i as int]);
        match &groups[i] {
            Some(name) => {
                let copy = name.clone();
                proof {
                    lemma_texts_push(out@, copy);
                }
                out.push(copy);
            },
            None => {},
        }
        i += 1;
    }
    assert(all.take(groups.len() as int) =~= all);
    out
}

/// `template` with the placeholders of `names` replaced, one occurrence for
/// each name, from left to right; a name without a value is replaced by its
/// marker.
pub fn expand_lenient_with(template: &str, names: &Vec<String>, vars: &StrMap) -> (out: String)
    ensures
        out@ == substitute(template@, texts(names@), vars@),
{
    let text = chars_of(template);
    let ghost all = texts(names@);
    let mut out: Vec<char> = Vec::new();
    let mut pos: usize = 0;
    let mut k: usize = 0;
    assert(all.skip(0) =~= all);
    while k < names.len()
        invariant
            k <= names.len(),
            pos <= text.len(),
            text@ == template@,
            all == texts(names@),
            out@ + substitute_from(text@, pos as int, all.skip(k as int), vars@) == substitute(
                template@,
                all,
                vars@,
            ),
        decreases names.len() - k,
    {
        let name = names[k].as_str();
        let ghost rest = all.skip(k as int);
        assert(rest[0] == name@);
        assert(rest.drop_first() =~= all.skip(k as int + 1));
        let wanted = chars_of(concat3("{{", name, "}}").as_str());
        proof {
            lemma_find_from(text@, wanted@, pos as int);
        }
        match find(&text, &wanted, pos) {
            Some(p) => {
                let value = match vars.get(name) {
                    Some(v) => chars_of(v.as_str()),
                    None => chars_of(concat3("<", name, ">").as_str()),
                };
                let before = slice_of(&text, pos, p);
                let ghost done = out@;
                push_all(&mut out, &before);
                push_all(&mut out, &value);
                pos = p + wanted.len();
                assert(out@ + substitute_from(
                    text@,
                    pos as int,
                    all.skip(k as int + 1),
                    vars@,
                ) =~= done + substitute_from(text@, p as int - before@.len(), rest, vars@));
            },
            None => {},
        }
        k += 1;
    }
    let tail = slice_of(&text, pos, text.len());
    push_all(&mut out, &tail);
    string_of(&out)
}

/// The names of `names` without a value in `vars`, each once, in the order of
/// their first occurrence.
fn missing_names(names: &Vec<String>, vars: &StrMap) -> (out: Vec<String>)
    ensures
        texts(out@) == missing(texts(names@), vars@),
{
    let ghost all = texts(names@);
    let mut out: Vec<String> = Vec::new();
    let mut k: usize = 0;
    assert(all.take(0) =~= Seq::empty());
    while k < names.len()
        invariant
            k <= names.len(),
            all == texts(names@),
            texts(out@) == missing(all.take(k as int), vars@),
        decreases names.len() - k,
    {
        assert(all.take(k as int + 1).drop_last() =~= all.take(k as int));
        assert(all.take(k as int + 1).last() == names@[k as int]@);
        let name = names[k].as_str();
        if !vars.contains_key(name) && !contains_string(&out, name) {
            let copy = names[k].clone();
            proof {
                lemma_texts_push(out@, copy);
            }
            out.push(copy);
        }
        k += 1;
    }
    assert(all.take(names.len() as int) =~= all);
    out
}

/// Strict expansion of a template whose placeholders are `names`: every
/// placeholder is replaced by its value, or the call fails and lists the
/// names without a value.
pub fn expand_with(template: &str, names: &Vec<String>, vars: &StrMap) -> (r: Result<
    String,
    GetapiError,
>)
    ensures
        outcome(r) == strict(template@, texts(names@), vars@),
{
    let absent = missing_names(names, vars);
    if absent.len() > 0 {
        return Err(GetapiError::TemplateVarNotFound(join_strings(&absent, ", ")));
    }
    Ok(expand_lenient_with(template, names, vars))
}

/// Replaces every placeholder of `template` by the value of its variable.
/// Fails where a variable has no value, listing every such name.
pub fn expand(template: &str, vars: &StrMap) -> (r: Result<String, GetapiError>)
    ensures
        outcome(r) == expanded(template@, vars@),
{
    match first_groups(PLACEHOLDER, template) {
        Ok(groups) => {
            let names = present_names(groups);
            expand_with(template, &names, vars)
        },
        Err(e) => Err(GetapiError::InvalidRecipe(concat("Bad placeholder pattern: ", e.as_str()))),
    }
}

/// Replaces every placeholder of `template` by the value of its variable, and
/// by a marker where the variable has no value. Never fails.
pub fn expand_lenient(template: &str, vars: &StrMap) -> (out: String)
    ensures
        out@ == expanded_leniently(template@, vars@),
{
    match first_groups(PLACEHOLDER, template) {
        Ok(groups) => {
            let names = present_names(groups);
            expand_lenient_with(template, &names, vars)
        },
        Err(_) => template.to_owned(),
    }
}

} // verus!
