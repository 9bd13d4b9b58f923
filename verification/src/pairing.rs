//! Every relation field of an inferred data model has exactly one
//! counterpart, as long as the schema keeps its tables and its relations
//! apart.

use crate::assembly::{addressed_to, pending_field};
use crate::calculate_datamodel::inferred;
use crate::datamodel::{
    has_related_field, is_related_field, lemma_model_position, model_position, DatamodelView,
};
use crate::error::ErrorView;
use crate::fields::{foreign_key_is_sound, modelled_position, relation_name};
use crate::models::{modelled_tables, scalar_fields, table_models};
use crate::names::{sanitized, Name};
use crate::schema::SchemaView;
use crate::sequences::{
    flat_positions, is_at, kept_positions, lemma_flat_positions, lemma_kept_positions,
};
use crate::structure::{
    added_fields, back_parts, base_models, join_parts, lemma_base_model, lemma_find_model,
    lemma_join_part, lemma_models_follow_tables, lemma_output_field, lemma_output_model,
    named_pending, unnamed_pending,
};
use crate::synthesis::{
    join_tables, lacks_back_relation, many_to_many_fields, model_back_relations,
    to_back_relation,
};

use vstd::prelude::*;

verus! {

/// A relation between two models: the sanitized names of the models at its
/// ends, and its own sanitized name.
pub struct Link {
    pub from: Name,
    pub to: Name,
    pub name: Name,
}

/// The relation that the `k`-th foreign key of the `m`-th table that becomes
/// a model stands for.
pub open spec fn foreign_key_link(s: SchemaView, m: int, k: int) -> Link {
    let t = modelled_tables(s.tables)[m];
    Link {
        from: sanitized(t.name),
        to: sanitized(t.foreign_keys[k].referenced_table),
        name: sanitized(relation_name(s.tables, t, k)),
    }
}

/// The relation that the `j`-th join table stands for.
pub open spec fn join_table_link(s: SchemaView, j: int) -> Link {
    let t = join_tables(s.tables)[j];
    Link {
        from: sanitized(t.foreign_keys[0].referenced_table),
        to: sanitized(t.foreign_keys[1].referenced_table),
        name: sanitized(t.name.skip(1)),
    }
}

/// Whether two relations have the same name and the same two models at
/// their ends, in whatever order.
pub open spec fn same_relation(x: Link, y: Link) -> bool {
    x.name == y.name && ((x.from == y.from && x.to == y.to) || (x.from == y.to && x.to
        == y.from))
}

/// Whether the tables that become models have pairwise distinct names.
pub open spec fn model_names_are_distinct(s: SchemaView) -> bool {
    forall|m: int, n: int|
        0 <= m < n < modelled_tables(s.tables).len() ==> (#[trigger] modelled_tables(
            s.tables,
        )[m]).name != (#[trigger] modelled_tables(s.tables)[n]).name
}

/// Whether no two of the foreign keys and join tables of the schema stand
/// for the same relation.
pub open spec fn relations_are_unambiguous(s: SchemaView) -> bool {
    &&& forall|m: int, k: int, n: int, l: int|
        0 <= m < modelled_tables(s.tables).len() && 0 <= k < modelled_tables(
            s.tables,
        )[m].foreign_keys.len() && 0 <= n < modelled_tables(s.tables).len() && 0 <= l
            < modelled_tables(s.tables)[n].foreign_keys.len() && (m != n || k != l)
            ==> !same_relation(
            #[trigger] foreign_key_link(s, m, k),
            #[trigger] foreign_key_link(s, n, l),
        )
    &&& forall|i: int, j: int|
        0 <= i < j < join_tables(s.tables).len() ==> !same_relation(
            #[trigger] join_table_link(s, i),
            #[trigger] join_table_link(s, j),
        )
    &&& forall|m: int, k: int, j: int|
        0 <= m < modelled_tables(s.tables).len() && 0 <= k < modelled_tables(
            s.tables,
        )[m].foreign_keys.len() && 0 <= j < join_tables(s.tables).len() ==> !same_relation(
            #[trigger] foreign_key_link(s, m, k),
            #[trigger] join_table_link(s, j),
        )
}

/// Whether the `j`-th field of the `n`-th model is a counterpart of the
/// `i`-th field of the `m`-th model: another relation field, on the model
/// that the first one leads to, that leads back under the same relation
/// name.
pub open spec fn is_counterpart(dm: DatamodelView, m: int, i: int, n: int, j: int) -> bool {
    &&& 0 <= n < dm.models.len()
    &&& 0 <= j < dm.models[n].fields.len()
    &&& (n != m || j != i)
    &&& dm.models[n].fields[j].is_relation()
    &&& dm.models[n].name == dm.models[m].fields[i].relation().to
    &&& dm.models[n].fields[j].relation().to == dm.models[m].name
    &&& dm.models[n].fields[j].relation().name == dm.models[m].fields[i].relation().name
}

/// Where a relation field comes from: a foreign key or a join table, and
/// which of its two ends the field is. For a foreign key, `at` is the
/// position of its table among those that become models and `key` its
/// position in the table, and the far end is the one on the referenced
/// model; for a join table, `at` is its position among the join tables, and
/// the far end is the field that its second foreign key gives.
pub struct Origin {
    pub join: bool,
    pub at: int,
    pub key: int,
    pub far: bool,
}

/// The other end.
pub open spec fn opposite(o: Origin) -> Origin {
    Origin { far: !o.far, ..o }
}

/// Whether the schema has the foreign key or join table that the origin names.
pub open spec fn origin_is_valid(s: SchemaView, o: Origin) -> bool {
    if o.join {
        0 <= o.at < join_tables(s.tables).len() && o.key == 0
    } else {
        0 <= o.at < modelled_tables(s.tables).len() && 0 <= o.key < modelled_tables(
            s.tables,
        )[o.at].foreign_keys.len()
    }
}

/// The relation that the field belongs to.
pub open spec fn link_of(s: SchemaView, o: Origin) -> Link {
    if o.join {
        join_table_link(s, o.at)
    } else {
        foreign_key_link(s, o.at, o.key)
    }
}

/// The sanitized names of the model that holds the field and of the model
/// that the field leads to.
pub open spec fn ends_of(s: SchemaView, o: Origin) -> (Name, Name) {
    let l = link_of(s, o);
    if o.join == o.far {
        (l.from, l.to)
    } else {
        (l.to, l.from)
    }
}

/// Where the `p`-th of the added fields comes from.
pub open spec fn pending_origin(s: SchemaView, p: int) -> Origin {
    let backs = back_parts(s).flatten().len();
    if p < backs {
        let at = flat_positions(back_parts(s))[p];
        let m = base_models(s)[at.0];
        let c = kept_positions(m.fields, lacks_back_relation(base_models(s), m.name))[at.1];
        Origin {
            join: false,
            at: at.0,
            key: c - scalar_fields(modelled_tables(s.tables)[at.0]).len(),
            far: true,
        }
    } else {
        let at = flat_positions(join_parts(s))[p - backs];
        Origin { join: true, at: at.0, key: 0, far: at.1 == 1 }
    }
}

/// Where the `j`-th field of the `n`-th model comes from, if it is a
/// relation field.
pub open spec fn field_origin(s: SchemaView, n: int, j: int) -> Origin {
    let own = base_models(s)[n].fields.len();
    if j < own {
        Origin {
            join: false,
            at: n,
            key: j - scalar_fields(modelled_tables(s.tables)[n]).len(),
            far: false,
        }
    } else {
        pending_origin(
            s,
            kept_positions(named_pending(s), addressed_to(base_models(s)[n].name))[j - own],
        )
    }
}

/// Each added field is a relation field for the model at one end of the
/// relation it comes from, and leads to the model at the other end. Telling
/// names apart changes its name only.
pub proof fn lemma_pending_origin(s: SchemaView, p: int)
    requires
        table_models(s.tables) is Ok,
        many_to_many_fields(s.tables) is Ok,
        0 <= p < unnamed_pending(s).len(),
    ensures
        ({
            let o = pending_origin(s, p);
            let e = unnamed_pending(s)[p];
            let d = named_pending(s)[p];
            &&& origin_is_valid(s, o)
            &&& (o.join || o.far)
            &&& (p < back_parts(s).flatten().len() <==> !o.join)
            &&& e.field.is_relation()
            &&& sanitized(e.model) == ends_of(s, o).0
            &&& sanitized(e.field.relation().to) == ends_of(s, o).1
            &&& sanitized(e.field.relation().name) == link_of(s, o).name
            &&& modelled_position(s.tables, e.model) is Some
            &&& named_pending(s).len() == unnamed_pending(s).len()
            &&& d.model == e.model
            &&& d.field.is_relation()
            &&& d.field.relation() == e.field.relation()
        }),
{
    let tables = s.tables;
    let mt = modelled_tables(tables);
    let base = base_models(s);
    let backs = back_parts(s).flatten();
    let e = unnamed_pending(s)[p];
    if p < backs.len() {
        lemma_flat_positions(back_parts(s));
        let at = flat_positions(back_parts(s))[p];
        let a = at.0;
        let b = at.1;
        assert(e == back_parts(s)[a][b]);
        lemma_base_model(s, 0);
        lemma_base_model(s, a);
        let m = base[a];
        let t = mt[a];
        let keep = lacks_back_relation(base, m.name);
        lemma_kept_positions(m.fields, keep);
        assert(back_parts(s)[a] == model_back_relations(base, t, m));
        let c = kept_positions(m.fields, keep)[b];
        let f = m.fields[c];
        assert(m.fields.filter(keep)[b] == f);
        assert(e == to_back_relation(t)(f));
        assert(keep(f));
        assert(f.is_relation());
        let k = c - scalar_fields(t).len();
        assert(foreign_key_is_sound(tables, t, t.foreign_keys[k]));
    } else {
        let q = p - backs.len();
        lemma_flat_positions(join_parts(s));
        let at = flat_positions(join_parts(s))[q];
        let x = at.0;
        assert(e == join_parts(s)[x][at.1]);
        lemma_join_part(s, 0);
        lemma_join_part(s, x);
        assert(at.1 == 0 || at.1 == 1);
    }
}

/// Different added fields come from different ends of relations.
pub proof fn lemma_pending_origins_differ(s: SchemaView, p: int, q: int)
    requires
        table_models(s.tables) is Ok,
        many_to_many_fields(s.tables) is Ok,
        0 <= p < q < unnamed_pending(s).len(),
    ensures
        pending_origin(s, p) != pending_origin(s, q),
{
    lemma_pending_origin(s, p);
    lemma_pending_origin(s, q);
    let backs = back_parts(s).flatten().len();
    if q < backs {
        lemma_flat_positions(back_parts(s));
        let fp = flat_positions(back_parts(s));
        assert(fp[p] != fp[q]);
        if fp[p].0 == fp[q].0 {
            let m = base_models(s)[fp[p].0];
            lemma_kept_positions(m.fields, lacks_back_relation(base_models(s), m.name));
            let kp = kept_positions(m.fields, lacks_back_relation(base_models(s), m.name));
            if fp[p].1 < fp[q].1 {
                assert(kp[fp[p].1] < kp[fp[q].1]);
            } else {
                assert(kp[fp[q].1] < kp[fp[p].1]);
            }
        }
    } else if p >= backs {
        lemma_flat_positions(join_parts(s));
        let fp = flat_positions(join_parts(s));
        assert(fp[p - backs] != fp[q - backs]);
        lemma_join_part(s, fp[p - backs].0);
        lemma_join_part(s, fp[q - backs].0);
    }
}

/// A relation field of a data model stands on the model at one end of the
/// relation it comes from, leads to the model at the other end, and bears
/// the name of the relation.
pub proof fn lemma_field_origin(s: SchemaView, dm: DatamodelView, n: int, j: int)
    requires
        inferred(s) == Ok::<DatamodelView, ErrorView>(dm),
        0 <= n < dm.models.len(),
        0 <= j < dm.models[n].fields.len(),
        dm.models[n].fields[j].is_relation(),
    ensures
        origin_is_valid(s, field_origin(s, n, j)),
        dm.models[n].name == ends_of(s, field_origin(s, n, j)).0,
        dm.models[n].fields[j].relation().to == ends_of(s, field_origin(s, n, j)).1,
        dm.models[n].fields[j].relation().name == link_of(s, field_origin(s, n, j)).name,
{
    lemma_output_model(s, dm, n);
    lemma_output_field(s, dm, n, j);
    lemma_base_model(s, n);
    let base = base_models(s);
    let own = base[n].fields.len();
    if j >= own {
        let keep = addressed_to(base[n].name);
        let named = named_pending(s);
        lemma_kept_positions(named, keep);
        let a = j - own;
        let p = kept_positions(named, keep)[a];
        assert(added_fields(s, n)[a] == pending_field()(named.filter(keep)[a]));
        assert(named.filter(keep)[a] == named[p]);
        assert(named.len() == unnamed_pending(s).len());
        lemma_pending_origin(s, p);
    }
}

/// Different relation fields come from different ends of relations, as long
/// as no two models have the same name.
pub proof fn lemma_field_origins_differ(
    s: SchemaView,
    dm: DatamodelView,
    n: int,
    j: int,
    n2: int,
    j2: int,
)
    requires
        inferred(s) == Ok::<DatamodelView, ErrorView>(dm),
        model_names_are_distinct(s),
        0 <= n < dm.models.len(),
        0 <= j < dm.models[n].fields.len(),
        dm.models[n].fields[j].is_relation(),
        0 <= n2 < dm.models.len(),
        0 <= j2 < dm.models[n2].fields.len(),
        dm.models[n2].fields[j2].is_relation(),
        n != n2 || j != j2,
    ensures
        field_origin(s, n, j) != field_origin(s, n2, j2),
{
    lemma_field_origin(s, dm, n, j);
    lemma_field_origin(s, dm, n2, j2);
    lemma_output_model(s, dm, n);
    lemma_output_model(s, dm, n2);
    lemma_base_model(s, n);
    lemma_base_model(s, n2);
    let base = base_models(s);
    let named = named_pending(s);
    let own = base[n].fields.len();
    let own2 = base[n2].fields.len();
    if j >= own && j2 >= own2 {
        let keep = addressed_to(base[n].name);
        let keep2 = addressed_to(base[n2].name);
        lemma_kept_positions(named, keep);
        lemma_kept_positions(named, keep2);
        let p = kept_positions(named, keep)[j - own];
        let q = kept_positions(named, keep2)[j2 - own2];
        assert(named.len() == unnamed_pending(s).len()) by {
            lemma_pending_origin(s, p);
        }
        if p == q {
            assert(named[p].model == base[n].name);
            assert(named[p].model == base[n2].name);
            if n != n2 {
                let mt = modelled_tables(s.tables);
                if n < n2 {
                    assert(mt[n].name != mt[n2].name);
                } else {
                    assert(mt[n2].name != mt[n].name);
                }
            }
            let kp = kept_positions(named, keep);
            if j < j2 {
                assert(kp[j - own] < kp[j2 - own]);
            } else {
                assert(kp[j2 - own] < kp[j - own]);
            }
        } else if p < q {
            lemma_pending_origins_differ(s, p, q);
        } else {
            lemma_pending_origins_differ(s, q, p);
        }
    } else if j >= own {
        let keep = addressed_to(base[n].name);
        lemma_kept_positions(named, keep);
        let p = kept_positions(named, keep)[j - own];
        assert(named.len() == unnamed_pending(s).len()) by {
            lemma_pending_origin(s, 0);
        }
        lemma_pending_origin(s, p);
    } else if j2 >= own2 {
        let keep2 = addressed_to(base[n2].name);
        lemma_kept_positions(named, keep2);
        let q = kept_positions(named, keep2)[j2 - own2];
        assert(named.len() == unnamed_pending(s).len()) by {
            lemma_pending_origin(s, 0);
        }
        lemma_pending_origin(s, q);
    }
}

/// Where relations are unambiguous, two ends that bear the same name between
/// the same two models belong to the same foreign key or join table.
pub proof fn lemma_same_relation_same_source(s: SchemaView, o: Origin, o2: Origin)
    requires
        relations_are_unambiguous(s),
        origin_is_valid(s, o),
        origin_is_valid(s, o2),
        same_relation(link_of(s, o), link_of(s, o2)),
    ensures
        o.join == o2.join,
        o.at == o2.at,
        o.key == o2.key,
{
    if o.join && o2.join {
        if o.at < o2.at {
            assert(!same_relation(join_table_link(s, o.at), join_table_link(s, o2.at)));
        } else if o2.at < o.at {
            assert(!same_relation(join_table_link(s, o2.at), join_table_link(s, o.at)));
        }
    } else if o.join {
        assert(!same_relation(foreign_key_link(s, o2.at, o2.key), join_table_link(s, o.at)));
    } else if o2.join {
        assert(!same_relation(foreign_key_link(s, o.at, o.key), join_table_link(s, o2.at)));
    } else {
        if o.at != o2.at || o.key != o2.key {
            assert(!same_relation(
                foreign_key_link(s, o.at, o.key),
                foreign_key_link(s, o2.at, o2.key),
            ));
        }
    }
}

/// Where relations are unambiguous, no model holds the far end of a foreign
/// key before the far ends are added.
pub proof fn lemma_forward_lacks_back(s: SchemaView, m: int, k: int)
    requires
        table_models(s.tables) is Ok,
        relations_are_unambiguous(s),
        0 <= m < modelled_tables(s.tables).len(),
        0 <= k < modelled_tables(s.tables)[m].foreign_keys.len(),
    ensures
        ({
            let own = base_models(s)[m];
            let c = scalar_fields(modelled_tables(s.tables)[m]).len() + k;
            0 <= c < own.fields.len() && lacks_back_relation(base_models(s), own.name)(
                own.fields[c],
            )
        }),
{
    let tables = s.tables;
    let mt = modelled_tables(tables);
    let base = base_models(s);
    lemma_base_model(s, m);
    let own = base[m];
    let c = scalar_fields(mt[m]).len() + k;
    let f = own.fields[c];
    let to = f.relation().to;
    let relation = f.relation().name;
    if has_related_field(base, own.name, to, relation, f.name) {
        lemma_model_position(base, to);
        let n = model_position(base, to)->0;
        lemma_base_model(s, n);
        let other = base[n];
        let d = choose|d: int|
            0 <= d < other.fields.len() && is_related_field(
                other.name,
                #[trigger] other.fields[d],
                own.name,
                relation,
                f.name,
            );
        let g = other.fields[d];
        let l = d - scalar_fields(mt[n]).len();
        assert(g.is_relation());
        assert(0 <= l < mt[n].foreign_keys.len());
        assert(same_relation(foreign_key_link(s, m, k), foreign_key_link(s, n, l)));
        assert(m == n && k == l);
    }
}

/// Where models and relations are unambiguous, each end of each foreign key
/// and join table is a relation field of the data model.
pub proof fn lemma_field_of_origin(s: SchemaView, dm: DatamodelView, o: Origin) -> (at: (int, int))
    requires
        inferred(s) == Ok::<DatamodelView, ErrorView>(dm),
        relations_are_unambiguous(s),
        origin_is_valid(s, o),
    ensures
        0 <= at.0 < dm.models.len(),
        0 <= at.1 < dm.models[at.0].fields.len(),
        dm.models[at.0].fields[at.1].is_relation(),
        field_origin(s, at.0, at.1) == o,
{
    lemma_models_follow_tables(s, dm);
    let tables = s.tables;
    let mt = modelled_tables(tables);
    let base = base_models(s);
    let named = named_pending(s);
    let backs = back_parts(s).flatten().len();
    if !o.join && !o.far {
        lemma_base_model(s, o.at);
        let j = scalar_fields(mt[o.at]).len() + o.key;
        lemma_output_model(s, dm, o.at);
        lemma_output_field(s, dm, o.at, j);
        (o.at, j)
    } else {
        let p: int;
        if !o.join {
            let a = o.at;
            lemma_base_model(s, a);
            lemma_forward_lacks_back(s, a, o.key);
            let own = base[a];
            let keep = lacks_back_relation(base, own.name);
            let c = scalar_fields(mt[a]).len() + o.key;
            lemma_kept_positions(own.fields, keep);
            let kp = kept_positions(own.fields, keep);
            let b = choose|b: int| 0 <= b < kp.len() && #[trigger] kp[b] == c;
            assert(back_parts(s)[a] == model_back_relations(base, mt[a], own));
            lemma_flat_positions(back_parts(s));
            assert(is_at(back_parts(s), a, b));
            let fp = flat_positions(back_parts(s));
            p = choose|p: int| 0 <= p < fp.len() && #[trigger] fp[p] == (a, b);
            assert(pending_origin(s, p) == o);
        } else {
            let x = o.at;
            lemma_join_part(s, x);
            let e: int = if o.far {
                1
            } else {
                0
            };
            lemma_flat_positions(join_parts(s));
            assert(is_at(join_parts(s), x, e));
            let fp = flat_positions(join_parts(s));
            let q = choose|q: int| 0 <= q < fp.len() && #[trigger] fp[q] == (x, e);
            p = backs + q;
            assert(pending_origin(s, p) == o);
        }
        lemma_pending_origin(s, p);
        let e = unnamed_pending(s)[p];
        let n = lemma_find_model(s, e.model);
        lemma_base_model(s, n);
        let keep = addressed_to(base[n].name);
        lemma_kept_positions(named, keep);
        let kp = kept_positions(named, keep);
        assert(keep(named[p]));
        let a = choose|a: int| 0 <= a < kp.len() && #[trigger] kp[a] == p;
        let j = base[n].fields.len() + a;
        assert(added_fields(s, n)[a] == pending_field()(named.filter(keep)[a]));
        assert(named.filter(keep)[a] == named[p]);
        lemma_output_model(s, dm, n);
        lemma_output_field(s, dm, n, j);
        (n, j)
    }
}

/// In a data model that inference gives for a schema in which no two
/// tables that become models have the same name, and no two foreign keys or
/// join tables stand for the same relation, every relation field has
/// exactly one counterpart: a relation field other than itself, on the model
/// that it leads to, that leads back to its own model under the same
/// relation name.
pub proof fn lemma_relation_fields_are_paired(s: SchemaView, dm: DatamodelView, m: int, i: int)
    requires
        inferred(s) == Ok::<DatamodelView, ErrorView>(dm),
        model_names_are_distinct(s),
        relations_are_unambiguous(s),
        0 <= m < dm.models.len(),
        0 <= i < dm.models[m].fields.len(),
        dm.models[m].fields[i].is_relation(),
    ensures
        exists|n: int, j: int|
            #[trigger] is_counterpart(dm, m, i, n, j) && forall|n2: int, j2: int|
                #[trigger] is_counterpart(dm, m, i, n2, j2) ==> n2 == n && j2 == j,
{
    let o = field_origin(s, m, i);
    lemma_field_origin(s, dm, m, i);
    let at = lemma_field_of_origin(s, dm, opposite(o));
    let n = at.0;
    let j = at.1;
    lemma_field_origin(s, dm, n, j);
    assert(is_counterpart(dm, m, i, n, j));
    assert forall|n2: int, j2: int| #[trigger] is_counterpart(dm, m, i, n2, j2) implies n2 == n
        && j2 == j by {
        lemma_field_origin(s, dm, n2, j2);
        let o2 = field_origin(s, n2, j2);
        lemma_same_relation_same_source(s, o, o2);
        lemma_field_origins_differ(s, dm, m, i, n2, j2);
        if n2 != n || j2 != j {
            lemma_field_origins_differ(s, dm, n, j, n2, j2);
        }
    }
}

} // verus!
