//! The names under which clients ask for models.
use vstd::prelude::*;

use crate::table::Table;
use crate::text::{
    ascii_lower, eq_ignore_ascii_case, law_trim_takes_off_white_ends, lowercase, to_lower, trim,
    trimmed, white,
};

verus! {

/// The form in which names are compared: without the white space around them, in small letters.
pub open spec fn normal_form(name: Seq<char>) -> Seq<char> {
    lowercase(trim(name))
}

/// A text of ASCII characters.
pub open spec fn all_ascii(s: Seq<char>) -> bool {
    forall|i: int| 0 <= i < s.len() ==> (s[i] as u32) < 0x80
}

/// The text with its ASCII capitals as small letters.
pub open spec fn ascii_lowered(s: Seq<char>) -> Seq<char> {
    s.map_values(|c: char| ascii_lower(c))
}

/// The models by the normal forms of their names. A later name replaces an earlier one with the
/// same normal form; a name that is empty in normal form is left out.
pub open spec fn normalized(mapping: Seq<(String, (i64, String))>) -> Map<
    Seq<char>,
    (i64, Seq<char>),
>
    decreases mapping.len(),
{
    if mapping.len() == 0 {
        Map::empty()
    } else {
        let front = normalized(mapping.drop_last());
        let entry = mapping.last();
        let key = normal_form(entry.0@);
        if key.len() == 0 {
            front
        } else {
            front.insert(key, (entry.1.0, entry.1.1@))
        }
    }
}

/// The models that clients can ask for, by the normal forms of their names.
pub struct Normalizer {
    cache: Table<String, (i64, String)>,
}

impl View for Normalizer {
    type V = Map<Seq<char>, (i64, Seq<char>)>;

    closed spec fn view(&self) -> Map<Seq<char>, (i64, Seq<char>)> {
        self.cache@.map_values(|p: (i64, String)| (p.0, p.1@))
    }
}

/// The entry that a name in normal form leads to; the empty name leads to none.
pub open spec fn lookup(
    models: Map<Seq<char>, (i64, Seq<char>)>,
    key: Seq<char>,
) -> Option<(i64, Seq<char>)> {
    if key.len() > 0 && models.contains_key(key) {
        Some(models[key])
    } else {
        None
    }
}

/// The view of a resolved model.
pub open spec fn resolved_view(r: Option<(i64, String)>) -> Option<(i64, Seq<char>)> {
    match r {
        Some(p) => Some((p.0, p.1@)),
        None => None,
    }
}

impl Normalizer {
    pub fn new() -> (r: Self)
        ensures
            r@ == Map::<Seq<char>, (i64, Seq<char>)>::empty(),
    {
        let r = Normalizer { cache: Table::new() };
        proof {
            assert(r@ =~= Map::empty());
        }
        r
    }

    /// The model that a key in normal form leads to.
    pub fn resolve_key(&self, key: &String) -> (r: Option<(i64, String)>)
        ensures
            resolved_view(r) == lookup(self@, key@),
    {
        if key.as_str().is_empty() {
            return None;
        }
        match self.cache.get(key) {
            Some(p) => Some((p.0, p.1.clone())),
            None => None,
        }
    }

    /// The number and the canonical name of the model that a client's name means. Of a name in
    /// ASCII only the letters count, not their case.
    pub fn resolve(&self, name: &str) -> (r: Option<(i64, String)>)
        ensures
            resolved_view(r) == lookup(self@, normal_form(name@)),
            all_ascii(trim(name@)) ==> resolved_view(r) == lookup(
                self@,
                ascii_lowered(trim(name@)),
            ),
    {
        let key = to_lower(trimmed(name).as_str());
        self.resolve_key(&key)
    }

    /// Replaces all names.
    pub fn reload(&mut self, mapping: Vec<(String, (i64, String))>)
        ensures
            final(self)@ == normalized(mapping@),
            forall|i: int|
                0 <= i < mapping@.len() && all_ascii(trim((#[trigger] mapping@[i]).0@))
                    ==> normal_form(mapping@[i].0@) == ascii_lowered(trim(mapping@[i].0@)),
    {
        let ghost all = mapping@;
        let mut rest = mapping;
        let mut next = Normalizer::new();
        let ghost mut done: int = 0;
        proof {
            assert(all.take(0) =~= Seq::empty());
        }
        while rest.len() > 0
            invariant
                0 <= done <= all.len(),
                rest@ == all.skip(done),
                next@ == normalized(all.take(done)),
                forall|i: int|
                    0 <= i < done && all_ascii(trim((#[trigger] all[i]).0@)) ==> normal_form(
                        all[i].0@,
                    ) == ascii_lowered(trim(all[i].0@)),
            ensures
                done == all.len(),
                next@ == normalized(all.take(done)),
                forall|i: int|
                    0 <= i < done && all_ascii(trim((#[trigger] all[i]).0@)) ==> normal_form(
                        all[i].0@,
                    ) == ascii_lowered(trim(all[i].0@)),
            decreases rest@.len(),
        {
            let (name, model) = rest.remove(0);
            proof {
                assert(all.skip(done).remove(0) =~= all.skip(done + 1));
                assert(all.take(done + 1).drop_last() =~= all.take(done));
                done = done + 1;
            }
            let key = to_lower(trimmed(name.as_str()).as_str());
            if !key.as_str().is_empty() {
                let ghost before = next@;
                let ghost id = key@;
                let ghost entry = (model.0, model.1@);
                next.cache.insert(key, model);
                proof {
                    assert(next@ =~= before.insert(id, entry));
                }
            }
        }
        proof {
            assert(all.take(done) =~= all);
        }
        *self = next;
    }
}

impl Default for Normalizer {
    fn default() -> (r: Self)
        ensures
            r@ == Map::<Seq<char>, (i64, Seq<char>)>::empty(),
    {
        Normalizer::new()
    }
}

/// Names in ASCII that differ only in the case of their letters and in the white space around them
/// mean the same model.
pub proof fn law_resolution_ignores_case_and_space(
    models: Map<Seq<char>, (i64, Seq<char>)>,
    a: Seq<char>,
    b: Seq<char>,
)
    requires
        eq_ignore_ascii_case(trim(a), trim(b)),
    ensures
        ascii_lowered(trim(a)) == ascii_lowered(trim(b)),
        lookup(models, ascii_lowered(trim(a))) == lookup(models, ascii_lowered(trim(b))),
{
    assert forall|i: int| 0 <= i < trim(a).len() implies ascii_lowered(trim(a))[i]
        == #[trigger] ascii_lowered(trim(b))[i] by {
        assert(ascii_lower(trim(a)[i]) == ascii_lower(trim(b)[i]));
    }
    assert(ascii_lowered(trim(a)) =~= ascii_lowered(trim(b)));
}

/// The last name of a mapping leads to its model, and so does every name of the same normal form.
pub proof fn law_reloaded_name_resolves(
    mapping: Seq<(String, (i64, String))>,
    i: int,
    name: Seq<char>,
)
    requires
        0 <= i < mapping.len(),
        normal_form(name) == normal_form(mapping[i].0@),
        normal_form(name).len() > 0,
        forall|j: int|
            i < j < mapping.len() ==> normal_form((#[trigger] mapping[j]).0@) != normal_form(name),
    ensures
        lookup(normalized(mapping), normal_form(name)) == Some(
            (mapping[i].1.0, mapping[i].1.1@),
        ),
    decreases mapping.len(),
{
    if i < mapping.len() - 1 {
        let front = mapping.drop_last();
        assert(front[i] == mapping[i]);
        assert forall|j: int| i < j < front.len() implies normal_form((#[trigger] front[j]).0@)
            != normal_form(name) by {
            assert(front[j] == mapping[j]);
        }
        law_reloaded_name_resolves(front, i, name);
        assert(normal_form(mapping[mapping.len() - 1].0@) != normal_form(name));
    }
}

/// A name that no entry of the mapping has leads to no model: nothing of an earlier mapping stays.
pub proof fn law_unknown_name_does_not_resolve(
    mapping: Seq<(String, (i64, String))>,
    name: Seq<char>,
)
    requires
        forall|j: int|
            0 <= j < mapping.len() ==> normal_form((#[trigger] mapping[j]).0@) != normal_form(name),
    ensures
        lookup(normalized(mapping), normal_form(name)) is None,
    decreases mapping.len(),
{
    if mapping.len() > 0 {
        let front = mapping.drop_last();
        assert forall|j: int| 0 <= j < front.len() implies normal_form((#[trigger] front[j]).0@)
            != normal_form(name) by {
            assert(front[j] == mapping[j]);
        }
        law_unknown_name_does_not_resolve(front, name);
        assert(normal_form(mapping[mapping.len() - 1].0@) != normal_form(name));
    }
}

/// The white space around a name is immaterial to its normal form.
pub proof fn law_normal_form_ignores_space(front: Seq<char>, name: Seq<char>, back: Seq<char>)
    requires
        forall|i: int| 0 <= i < front.len() ==> white(#[trigger] front[i]),
        forall|i: int| 0 <= i < back.len() ==> white(#[trigger] back[i]),
        name.len() == 0 || (!white(name[0]) && !white(name.last())),
    ensures
        normal_form(front + name + back) == lowercase(name),
        normal_form(name) == lowercase(name),
{
    law_trim_takes_off_white_ends(front, name, back);
    law_trim_takes_off_white_ends(Seq::empty(), name, Seq::empty());
    assert(Seq::<char>::empty() + name + Seq::<char>::empty() =~= name);
}

/// A name leads to what is known under it, and the empty name to nothing.
pub proof fn law_known_names_lead_to_their_model(
    models: Map<Seq<char>, (i64, Seq<char>)>,
    key: Seq<char>,
)
    ensures
        lookup(models, key) is Some <==> key.len() > 0 && models.contains_key(key),
        lookup(models, key) matches Some(m) ==> m == models[key],
{
}

} // verus!
