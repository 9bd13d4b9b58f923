//! The last steps on a model: the fields that were gathered for it join it,
//! every name becomes an identifier, and no two fields keep the same name.

use crate::datamodel::{
    field_names, Field, FieldType, FieldTypeView, FieldView, IndexDefinition,
    IndexDefinitionView, Model, ModelView, RelationInfo, RelationView,
};
use crate::names::{sanitize_name, sanitized, sanitized_all, Name};
use crate::schema::{clone_names, names_contain};
use crate::synthesis::{PendingField, PendingView};
use vstd::prelude::*;
use vstd::string::*;

verus! {

/// A field with its own name, and the names of models, relations and enums
/// that it holds, coerced into identifiers. The physical columns keep their
/// names.
pub open spec fn sanitized_field(f: FieldView) -> FieldView {
    FieldView {
        name: sanitized(f.name),
        field_type: match f.field_type {
            FieldTypeView::Relation(r) => FieldTypeView::Relation(
                RelationView {
                    to: sanitized(r.to),
                    to_fields: sanitized_all(r.to_fields),
                    name: sanitized(r.name),
                    on_delete: r.on_delete,
                },
            ),
            FieldTypeView::Enum(n) => FieldTypeView::Enum(sanitized(n)),
            other => other,
        },
        ..f
    }
}

/// `sanitized_field`, as a function on fields.
pub open spec fn sanitizing_field() -> spec_fn(FieldView) -> FieldView {
    |f: FieldView| sanitized_field(f)
}

/// An index declaration with the names it holds coerced into identifiers.
pub open spec fn sanitized_index(d: IndexDefinitionView) -> IndexDefinitionView {
    IndexDefinitionView {
        name: match d.name {
            Some(n) => Some(sanitized(n)),
            None => None,
        },
        columns: sanitized_all(d.columns),
        unique: d.unique,
    }
}

/// `sanitized_index`, as a function on index declarations.
pub open spec fn sanitizing_index() -> spec_fn(IndexDefinitionView) -> IndexDefinitionView {
    |d: IndexDefinitionView| sanitized_index(d)
}

/// The digit for a number below ten.
pub open spec fn digit(d: int) -> char {
    if d == 0 {
        '0'
    } else if d == 1 {
        '1'
    } else if d == 2 {
        '2'
    } else if d == 3 {
        '3'
    } else if d == 4 {
        '4'
    } else if d == 5 {
        '5'
    } else if d == 6 {
        '6'
    } else if d == 7 {
        '7'
    } else if d == 8 {
        '8'
    } else {
        '9'
    }
}

/// A number in decimal notation.
pub open spec fn decimal(n: nat) -> Seq<char>
    decreases n,
{
    if n < 10 {
        seq![digit(n as int)]
    } else {
        decimal(n / 10).push(digit((n % 10) as int))
    }
}

/// A name followed by `_` and a number.
pub open spec fn numbered(name: Name, k: nat) -> Name {
    name.push('_') + decimal(k)
}

/// The first number from `k` on under which the name is not in use; no more
/// numbers are tried than names are in use.
pub open spec fn first_free_number(name: Name, used: Seq<Name>, k: nat) -> nat
    decreases used.len() + 2 - k,
{
    if used.contains(numbered(name, k)) && k < used.len() + 2 {
        first_free_number(name, used, k + 1)
    } else {
        k
    }
}

/// The name itself where it is not in use; else the first of `name_2`,
/// `name_3`, ... that is not in use.
pub open spec fn fresh_name(candidate: Name, used: Seq<Name>) -> Name {
    if used.contains(candidate) {
        numbered(candidate, first_free_number(candidate, used, 2))
    } else {
        candidate
    }
}

/// The fields `extra`, each under the first name, counted from its own, that
/// neither `used` holds nor an earlier one of them has taken.
pub open spec fn disambiguated(used: Seq<Name>, extra: Seq<FieldView>) -> Seq<FieldView>
    decreases extra.len(),
{
    if extra.len() == 0 {
        Seq::empty()
    } else {
        let earlier = disambiguated(used, extra.drop_last());
        let f = extra.last();
        earlier.push(f.with_name(fresh_name(f.name, used + field_names(earlier))))
    }
}

/// Whether a pending field is for the model of the given name.
pub open spec fn addressed_to(model: Name) -> spec_fn(PendingView) -> bool {
    |p: PendingView| p.model == model
}

/// The field of a pending field.
pub open spec fn pending_field() -> spec_fn(PendingView) -> FieldView {
    |p: PendingView| p.field
}

/// The pending fields for the model of the given name, in their order.
pub open spec fn fields_for(pending: Seq<PendingView>, model: Name) -> Seq<FieldView> {
    pending.filter(addressed_to(model)).map_values(pending_field())
}

/// The fields of an assembled model: its own, sanitized; then the fields
/// `extra`, sanitized and renamed where their names are taken.
pub open spec fn assembled_fields(own: Seq<FieldView>, extra: Seq<FieldView>) -> Seq<FieldView> {
    let declared = own.map_values(sanitizing_field());
    declared + disambiguated(field_names(declared), extra.map_values(sanitizing_field()))
}

/// The model `m` joined by the fields `extra`, all names sanitized.
pub open spec fn assembled_model(m: ModelView, extra: Seq<FieldView>) -> ModelView {
    ModelView {
        name: sanitized(m.name),
        fields: assembled_fields(m.fields, extra),
        id_fields: sanitized_all(m.id_fields),
        indices: m.indices.map_values(sanitizing_index()),
        is_commented_out: m.is_commented_out,
    }
}

proof fn lemma_decimal_length(n: nat)
    ensures
        decimal(n).len() >= 1,
        n >= 10 ==> decimal(n).len() >= 2,
    decreases n,
{
    if n >= 10 {
        lemma_decimal_length(n / 10);
    }
}

proof fn lemma_decimal_is_injective(a: nat, b: nat)
    requires
        decimal(a) == decimal(b),
    ensures
        a == b,
    decreases a,
{
    lemma_decimal_length(a);
    lemma_decimal_length(b);
    if a >= 10 && b >= 10 {
        assert(decimal(a).last() == digit((a % 10) as int));
        assert(decimal(b).last() == digit((b % 10) as int));
        assert(decimal(a).drop_last() =~= decimal(a / 10));
        assert(decimal(b).drop_last() =~= decimal(b / 10));
        lemma_decimal_is_injective(a / 10, b / 10);
    } else if a < 10 && b < 10 {
        assert(decimal(a)[0] == digit(a as int));
        assert(decimal(b)[0] == digit(b as int));
    }
}

/// Different numbers give different names.
pub proof fn lemma_numbered_is_injective(name: Name, a: nat, b: nat)
    requires
        numbered(name, a) == numbered(name, b),
    ensures
        a == b,
{
    let prefix = name.push('_');
    assert(numbered(name, a).skip(prefix.len() as int) =~= decimal(a));
    assert(numbered(name, b).skip(prefix.len() as int) =~= decimal(b));
    lemma_decimal_is_injective(a, b);
}

/// More numbered names than there are names in use are not all in use.
proof fn lemma_some_number_is_free(name: Name, used: Seq<Name>, from: nat, count: nat)
    requires
        count > used.len(),
    ensures
        exists|k: nat| from <= k < from + count && !used.contains(#[trigger] numbered(name, k)),
    decreases used.len(),
{
    let last = (from + count - 1) as nat;
    if used.contains(numbered(name, last)) {
        let i = choose|i: int| 0 <= i < used.len() && used[i] == numbered(name, last);
        let rest = used.remove(i);
        lemma_some_number_is_free(name, rest, from, (count - 1) as nat);
        let k = choose|k: nat|
            from <= k < from + count - 1 && !rest.contains(#[trigger] numbered(name, k));
        if used.contains(numbered(name, k)) {
            let j = choose|j: int| 0 <= j < used.len() && used[j] == numbered(name, k);
            if j == i {
                lemma_numbered_is_injective(name, k, last);
            } else if j < i {
                assert(rest[j] == used[j]);
            } else {
                assert(rest[j - 1] == used[j]);
            }
        }
    }
}

proof fn lemma_first_free_number(name: Name, used: Seq<Name>, k: nat)
    requires
        k <= used.len() + 2,
        exists|f: nat| k <= f < used.len() + 3 && !used.contains(#[trigger] numbered(name, f)),
    ensures
        !used.contains(numbered(name, first_free_number(name, used, k))),
        k <= first_free_number(name, used, k) <= used.len() + 2,
    decreases used.len() + 2 - k,
{
    if used.contains(numbered(name, k)) && k < used.len() + 2 {
        lemma_first_free_number(name, used, k + 1);
    }
}

/// A fresh name is not in use.
pub proof fn lemma_fresh_name_is_unused(candidate: Name, used: Seq<Name>)
    ensures
        !used.contains(fresh_name(candidate, used)),
{
    if used.contains(candidate) {
        lemma_some_number_is_free(candidate, used, 2, used.len() + 1);
        lemma_first_free_number(candidate, used, 2);
    }
}

/// Disambiguation keeps the number of fields and everything of a field but
/// its name, and where the names in use are pairwise distinct, they stay so
/// with the names of the disambiguated fields after them.
pub proof fn lemma_disambiguated(used: Seq<Name>, extra: Seq<FieldView>)
    ensures
        disambiguated(used, extra).len() == extra.len(),
        forall|i: int|
            0 <= i < extra.len() ==> (#[trigger] disambiguated(used, extra)[i]) == extra[i].with_name(
                disambiguated(used, extra)[i].name,
            ),
        used.no_duplicates() ==> (used + field_names(disambiguated(used, extra))).no_duplicates(),
    decreases extra.len(),
{
    if extra.len() > 0 {
        let init = extra.drop_last();
        lemma_disambiguated(used, init);
        let earlier = disambiguated(used, init);
        let f = extra.last();
        let taken = used + field_names(earlier);
        let name = fresh_name(f.name, taken);
        lemma_fresh_name_is_unused(f.name, taken);
        let out = disambiguated(used, extra);
        assert(out == earlier.push(f.with_name(name)));
        assert forall|i: int| 0 <= i < extra.len() implies (#[trigger] out[i])
            == extra[i].with_name(out[i].name) by {
            if i < init.len() {
                assert(out[i] == earlier[i]);
                assert(extra[i] == init[i]);
            }
        }
        if used.no_duplicates() {
            let all = used + field_names(out);
            assert(all =~= taken.push(name));
            assert forall|i: int, j: int| 0 <= i < all.len() && 0 <= j < all.len() && i != j
                implies all[i] != all[j] by {
                if i < taken.len() && j < taken.len() {
                    assert(all[i] == taken[i] && all[j] == taken[j]);
                } else if i < taken.len() {
                    assert(taken.contains(all[i]));
                } else {
                    assert(taken.contains(all[j]));
                }
            }
        }
    } else {
        assert(used + field_names(disambiguated(used, extra)) =~= used);
    }
}

/// The fields of an assembled model have pairwise distinct names where the
/// sanitized names of the model's own fields are pairwise distinct.
pub proof fn lemma_assembled_field_names_distinct(own: Seq<FieldView>, extra: Seq<FieldView>)
    requires
        field_names(own.map_values(sanitizing_field())).no_duplicates(),
    ensures
        field_names(assembled_fields(own, extra)).no_duplicates(),
{
    let declared = own.map_values(sanitizing_field());
    let added = disambiguated(field_names(declared), extra.map_values(sanitizing_field()));
    lemma_disambiguated(field_names(declared), extra.map_values(sanitizing_field()));
    assert(field_names(declared + added) =~= field_names(declared) + field_names(added));
}

/// Coerces each of the names into an identifier.
pub fn sanitize_names(names: &Vec<String>) -> (r: Vec<String>)
    ensures
        r.deep_view() == sanitized_all(names.deep_view()),
{
    let mut out: Vec<String> = Vec::new();
    let mut i: usize = 0;
    while i < names.len()
        invariant
            i <= names.len(),
            out.len() == i,
            forall|k: int|
                0 <= k < i ==> #[trigger] out.deep_view()[k] == sanitized(names.deep_view()[k]),
        decreases names.len() - i,
    {
        let name = sanitize_name(names[i].as_str());
        let ghost old_out = out.deep_view();
        out.push(name);
        proof {
            assert(names.deep_view()[i as int] == names[i as int]@);
            assert(out.deep_view() =~= old_out.push(name@));
        }
        i += 1;
    }
    assert(out.deep_view() =~= sanitized_all(names.deep_view()));
    out
}

/// Coerces the names that a field holds into identifiers.
pub fn sanitize_field(f: &Field) -> (r: Field)
    ensures
        r.deep_view() == sanitized_field(f.deep_view()),
{
    let field_type = match &f.field_type {
        FieldType::Relation(info) => FieldType::Relation(
            RelationInfo {
                to: sanitize_name(info.to.as_str()),
                to_fields: sanitize_names(&info.to_fields),
                name: sanitize_name(info.name.as_str()),
                on_delete: info.on_delete,
            },
        ),
        FieldType::Enum(n) => FieldType::Enum(sanitize_name(n.as_str())),
        other => other.clone(),
    };
    let mut out = f.clone();
    out.name = sanitize_name(f.name.as_str());
    out.field_type = field_type;
    out
}

/// Coerces the names that an index declaration holds into identifiers.
pub fn sanitize_index(d: &IndexDefinition) -> (r: IndexDefinition)
    ensures
        r.deep_view() == sanitized_index(d.deep_view()),
{
    IndexDefinition {
        name: match &d.name {
            Some(n) => Some(sanitize_name(n.as_str())),
            None => None,
        },
        columns: sanitize_names(&d.columns),
        unique: d.unique,
    }
}

fn digit_string(d: u128) -> (r: &'static str)
    requires
        d < 10,
    ensures
        r@ == seq![digit(d as int)],
{
    proof {
        reveal_strlit("0");
        reveal_strlit("1");
        reveal_strlit("2");
        reveal_strlit("3");
        reveal_strlit("4");
        reveal_strlit("5");
        reveal_strlit("6");
        reveal_strlit("7");
        reveal_strlit("8");
        reveal_strlit("9");
    }
    let r = if d == 0 {
        "0"
    } else if d == 1 {
        "1"
    } else if d == 2 {
        "2"
    } else if d == 3 {
        "3"
    } else if d == 4 {
        "4"
    } else if d == 5 {
        "5"
    } else if d == 6 {
        "6"
    } else if d == 7 {
        "7"
    } else if d == 8 {
        "8"
    } else {
        "9"
    };
    assert(r@ =~= seq![digit(d as int)]);
    r
}

fn decimal_string(n: u128) -> (r: String)
    ensures
        r@ == decimal(n as nat),
    decreases n,
{
    if n < 10 {
        String::from_str(digit_string(n))
    } else {
        let head = decimal_string(n / 10);
        let r = head.concat(digit_string(n % 10));
        assert(r@ =~= decimal((n / 10) as nat).push(digit((n % 10) as int)));
        r
    }
}

fn number_name(name: &String, k: u128) -> (r: String)
    ensures
        r@ == numbered(name@, k as nat),
{
    proof {
        reveal_strlit("_");
    }
    let r = name.clone().concat("_").concat(decimal_string(k).as_str());
    assert(r@ =~= numbered(name@, k as nat));
    r
}

/// The name itself where it is not in use; else the first of `name_2`,
/// `name_3`, ... that is not in use.
pub fn find_fresh_name(candidate: String, used: &Vec<String>) -> (r: String)
    ensures
        r@ == fresh_name(candidate@, used.deep_view()),
{
    if !names_contain(used, &candidate) {
        return candidate;
    }
    let ghost taken = used.deep_view();
    let mut k: u128 = 2;
    let mut name = number_name(&candidate, k);
    proof {
        lemma_some_number_is_free(candidate@, taken, 2, taken.len() + 1);
    }
    while names_contain(used, &name)
        invariant
            taken == used.deep_view(),
            taken.len() == used.len(),
            2 <= k <= taken.len() + 2,
            name@ == numbered(candidate@, k as nat),
            first_free_number(candidate@, taken, k as nat) == first_free_number(
                candidate@,
                taken,
                2,
            ),
            exists|f: nat|
                k <= f < taken.len() + 3 && !taken.contains(#[trigger] numbered(candidate@, f)),
        decreases taken.len() + 2 - k,
    {
        k = k + 1;
        name = number_name(&candidate, k);
    }
    name
}

/// Gives each of the fields `extra` the first name, counted from its own,
/// that neither `used` holds nor an earlier one of them has taken.
pub fn disambiguate_fields(used: &Vec<String>, extra: Vec<Field>) -> (r: Vec<Field>)
    ensures
        r.deep_view() == disambiguated(used.deep_view(), extra.deep_view()),
{
    let ghost names = used.deep_view();
    let ghost all = extra.deep_view();
    let mut taken = clone_names(used);
    let mut out: Vec<Field> = Vec::new();
    let mut i: usize = 0;
    proof {
        assert(all.take(0) =~= Seq::empty());
        assert(out.deep_view() =~= disambiguated(names, all.take(0)));
        assert(taken.deep_view() =~= names + field_names(out.deep_view()));
    }
    while i < extra.len()
        invariant
            i <= extra.len(),
            names == used.deep_view(),
            all == extra.deep_view(),
            out.deep_view() == disambiguated(names, all.take(i as int)),
            taken.deep_view() == names + field_names(out.deep_view()),
        decreases extra.len() - i,
    {
        let f = &extra[i];
        let ghost earlier = out.deep_view();
        let ghost before = taken.deep_view();
        proof {
            assert(all[i as int] == f.deep_view());
            assert(all.take(i as int + 1).drop_last() =~= all.take(i as int));
            assert(all.take(i as int + 1).last() == all[i as int]);
        }
        let name = find_fresh_name(f.name.clone(), &taken);
        let mut renamed = f.clone();
        renamed.name = name.clone();
        taken.push(name);
        out.push(renamed);
        proof {
            assert(out.deep_view() =~= earlier.push(renamed.deep_view()));
            assert(taken.deep_view() =~= before.push(name@));
            assert(taken.deep_view() =~= names + field_names(out.deep_view()));
        }
        i += 1;
    }
    proof {
        assert(all.take(all.len() as int) =~= all);
    }
    out
}

fn sanitize_fields(fields: &Vec<Field>) -> (r: Vec<Field>)
    ensures
        r.deep_view() == fields.deep_view().map_values(sanitizing_field()),
{
    let mut out: Vec<Field> = Vec::new();
    let mut i: usize = 0;
    while i < fields.len()
        invariant
            i <= fields.len(),
            out.len() == i,
            forall|k: int|
                0 <= k < i ==> #[trigger] out.deep_view()[k] == sanitized_field(
                    fields.deep_view()[k],
                ),
        decreases fields.len() - i,
    {
        let f = sanitize_field(&fields[i]);
        let ghost old_out = out.deep_view();
        out.push(f);
        proof {
            assert(fields.deep_view()[i as int] == fields[i as int].deep_view());
            assert(out.deep_view() =~= old_out.push(f.deep_view()));
        }
        i += 1;
    }
    assert(out.deep_view() =~= fields.deep_view().map_values(sanitizing_field()));
    out
}

fn sanitize_indices(indices: &Vec<IndexDefinition>) -> (r: Vec<IndexDefinition>)
    ensures
        r.deep_view() == indices.deep_view().map_values(sanitizing_index()),
{
    let mut out: Vec<IndexDefinition> = Vec::new();
    let mut i: usize = 0;
    while i < indices.len()
        invariant
            i <= indices.len(),
            out.len() == i,
            forall|k: int|
                0 <= k < i ==> #[trigger] out.deep_view()[k] == sanitized_index(
                    indices.deep_view()[k],
                ),
        decreases indices.len() - i,
    {
        let d = sanitize_index(&indices[i]);
        let ghost old_out = out.deep_view();
        out.push(d);
        proof {
            assert(indices.deep_view()[i as int] == indices[i as int].deep_view());
            assert(out.deep_view() =~= old_out.push(d.deep_view()));
        }
        i += 1;
    }
    assert(out.deep_view() =~= indices.deep_view().map_values(sanitizing_index()));
    out
}

fn names_of(fields: &Vec<Field>) -> (r: Vec<String>)
    ensures
        r.deep_view() == field_names(fields.deep_view()),
{
    let mut out: Vec<String> = Vec::new();
    let mut i: usize = 0;
    while i < fields.len()
        invariant
            i <= fields.len(),
            out.len() == i,
            forall|k: int|
                0 <= k < i ==> #[trigger] out.deep_view()[k] == fields.deep_view()[k].name,
        decreases fields.len() - i,
    {
        let name = fields[i].name.clone();
        let ghost old_out = out.deep_view();
        out.push(name);
        proof {
            assert(fields.deep_view()[i as int] == fields[i as int].deep_view());
            assert(out.deep_view() =~= old_out.push(name@));
        }
        i += 1;
    }
    assert(out.deep_view() =~= field_names(fields.deep_view()));
    out
}

/// The pending fields for the model of the given name.
pub fn select_fields_for(pending: &Vec<PendingField>, model: &String) -> (r: Vec<Field>)
    ensures
        r.deep_view() == fields_for(pending.deep_view(), model@),
{
    let ghost all = pending.deep_view();
    let ghost keep = addressed_to(model@);
    let mut out: Vec<Field> = Vec::new();
    let mut i: usize = 0;
    proof {
        assert(all.take(0) =~= Seq::empty());
        assert(all.take(0).filter(keep) =~= Seq::empty()) by {
            reveal(Seq::filter);
        }
        assert(out.deep_view() =~= all.take(0).filter(keep).map_values(pending_field()));
    }
    while i < pending.len()
        invariant
            i <= pending.len(),
            all == pending.deep_view(),
            keep == addressed_to(model@),
            out.deep_view() == all.take(i as int).filter(keep).map_values(pending_field()),
        decreases pending.len() - i,
    {
        let p = &pending[i];
        proof {
            assert(all[i as int] == p.deep_view());
            let before = all.take(i as int);
            all.lemma_take_succ_push(i as int);
            before.lemma_filter_push(all[i as int], keep);
            before.filter(keep).lemma_push_map_commute(pending_field(), all[i as int]);
        }
        if p.model == *model {
            let ghost old_out = out.deep_view();
            out.push(p.field.clone());
            assert(out.deep_view() =~= old_out.push(p.deep_view().field));
        }
        i += 1;
    }
    proof {
        assert(all.take(all.len() as int) =~= all);
    }
    out
}

/// Joins a model with the fields `extra` and sanitizes all names.
pub fn assemble_model(model: &Model, extra: &Vec<Field>) -> (r: Model)
    ensures
        r.deep_view() == assembled_model(model.deep_view(), extra.deep_view()),
{
    let mut fields = sanitize_fields(&model.fields);
    let used = names_of(&fields);
    let mut added = disambiguate_fields(&used, sanitize_fields(extra));
    let ghost declared = fields.deep_view();
    let ghost renamed = added.deep_view();
    fields.append(&mut added);
    assert(fields.deep_view() =~= declared + renamed);
    Model {
        name: sanitize_name(model.name.as_str()),
        fields,
        id_fields: sanitize_names(&model.id_fields),
        indices: sanitize_indices(&model.indices),
        is_commented_out: model.is_commented_out,
    }
}

} // verus!
