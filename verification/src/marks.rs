//! What a rendered condition binds: a condition that renders to nothing binds no parameter,
//! and in SQLite each `?` in the text stands for one bound parameter.

use vstd::prelude::*;

use crate::dialect::{group, joined, leaf_of, mark_of, path_for, plain_leaf, quoted, render, render_all, Dialect, Path};
use crate::spec::{Op, Tree};
use crate::value::Value;

verus! {

proof fn quoted_long(name: Seq<char>)
    ensures
        quoted(name).len() >= 2,
{
    reveal_strlit("\"");
}

proof fn leaf_text(d: Dialect, paths: Seq<Path>, f: crate::spec::Filter, base: nat)
    ensures
        leaf_of(d, paths, f, base).0.len() > 0,
{
    reveal_strlit(")");
    reveal_strlit("1 = 0");
    quoted_long(f.field@);
    match path_for(paths, f.field@) {
        Some(p) => {},
        None => {
            match f.op {
                Op::Like => {
                    reveal_strlit("LOWER(");
                },
                Op::At => {
                    match f.value {
                        Value::DateTime(at) => {},
                        _ => {},
                    }
                },
                _ => {},
            }
        },
    }
}

/// A condition that renders to no text binds no parameter, so a query that leaves out its
/// `WHERE` clause passes none.
pub proof fn empty_binds_nothing(d: Dialect, paths: Seq<Path>, node: Tree, base: nat)
    ensures
        render(d, paths, node, base).0.len() == 0 ==> render(d, paths, node, base).1.len() == 0,
    decreases node, 0nat,
{
    match node {
        Tree::Leaf(f) => {
            leaf_text(d, paths, f, base);
        },
        Tree::And(parts) => {
            reveal_strlit("(");
            let (conds, ps) = render_all(d, paths, parts@, base);
            if conds.len() == 0 {
                all_empty_bind_nothing(d, paths, parts@, base);
            } else if conds.len() == 1 {
                kept_not_empty(d, paths, parts@, base);
            }
        },
        Tree::Or(parts) => {
            reveal_strlit("(");
            reveal_strlit("1 = 0");
            let (conds, ps) = render_all(d, paths, parts@, base);
            if conds.len() == 1 {
                kept_not_empty(d, paths, parts@, base);
            }
        },
        Tree::Cut(inner) => {
            reveal_strlit("1 = 1");
            reveal_strlit("NOT (");
        },
    }
}

/// The branches render_all keeps are never empty text.
proof fn kept_not_empty(d: Dialect, paths: Seq<Path>, parts: Seq<Tree>, base: nat)
    ensures
        forall|i: int| 0 <= i < render_all(d, paths, parts, base).0.len() ==> (#[trigger] render_all(d, paths, parts, base).0[i]).len() > 0,
    decreases parts.len(),
{
    if parts.len() > 0 {
        kept_not_empty(d, paths, parts.drop_last(), base);
        let (conds, ps) = render_all(d, paths, parts.drop_last(), base);
        let (c, p) = render(d, paths, parts.last(), base + ps.len());
        let all = render_all(d, paths, parts, base).0;
        assert(all == (if c.len() == 0 { conds } else { conds.push(c) }));
        assert forall|i: int| 0 <= i < all.len() implies (#[trigger] all[i]).len() > 0 by {
            if i < conds.len() {
                assert(all[i] == conds[i]);
            }
        }
    }
}

/// When no branch keeps a condition, no branch binds a parameter.
proof fn all_empty_bind_nothing(d: Dialect, paths: Seq<Path>, parts: Seq<Tree>, base: nat)
    ensures
        render_all(d, paths, parts, base).0.len() == 0 ==> render_all(d, paths, parts, base).1.len() == 0,
    decreases parts, 1nat,
{
    if parts.len() > 0 {
        let (conds, ps) = render_all(d, paths, parts.drop_last(), base);
        let last = parts.last();
        assert(parts.len() - 1 < parts.len());
        all_empty_bind_nothing(d, paths, parts.drop_last(), base);
        empty_binds_nothing(d, paths, last, base + ps.len());
    }
}


/// The number of `?` marks in a text.
pub open spec fn marks_in(s: Seq<char>) -> nat
    decreases s.len(),
{
    if s.len() == 0 { 0 } else { marks_in(s.drop_last()) + if s.last() == '?' { 1nat } else { 0nat } }
}

/// The marks of every condition, added up.
pub open spec fn marks_all(conds: Seq<Seq<char>>) -> nat
    decreases conds.len(),
{
    if conds.len() == 0 { 0 } else { marks_all(conds.drop_last()) + marks_in(conds.last()) }
}

/// No field the tree compares, and no subquery head, holds a `?`.
pub open spec fn unmarked(paths: Seq<Path>, node: Tree) -> bool
    decreases node, 0nat,
{
    &&& forall|i: int| 0 <= i < paths.len() ==> marks_in(#[trigger] paths[i].head@) == 0
    &&& match node {
        Tree::Leaf(f) => marks_in(f.field@) == 0,
        Tree::And(parts) => unmarked_all(paths, parts@),
        Tree::Or(parts) => unmarked_all(paths, parts@),
        Tree::Cut(inner) => unmarked(paths, *inner),
    }
}

/// No branch compares a field holding a `?`.
pub open spec fn unmarked_all(paths: Seq<Path>, parts: Seq<Tree>) -> bool
    decreases parts, 1nat,
{
    if parts.len() == 0 { true } else { unmarked_all(paths, parts.drop_last()) && unmarked(paths, parts.last()) }
}

proof fn marks_add(a: Seq<char>, b: Seq<char>)
    ensures
        marks_in(a + b) == marks_in(a) + marks_in(b),
    decreases b.len(),
{
    if b.len() > 0 {
        marks_add(a, b.drop_last());
        assert((a + b).drop_last() =~= a + b.drop_last());
    }
}

proof fn no_marks(s: Seq<char>)
    requires
        forall|i: int| 0 <= i < s.len() ==> s[i] != '?',
    ensures
        marks_in(s) == 0,
    decreases s.len(),
{
    if s.len() > 0 {
        no_marks(s.drop_last());
    }
}

proof fn marks_joined(conds: Seq<Seq<char>>, sep: Seq<char>)
    requires
        marks_in(sep) == 0,
    ensures
        marks_in(joined(conds, sep)) == marks_all(conds),
    decreases conds.len(),
{
    if conds.len() == 1 {
        assert(conds.drop_last() =~= Seq::<Seq<char>>::empty());
        assert(marks_all(conds.drop_last()) == 0);
        assert(conds.last() == conds[0]);
    } else if conds.len() > 1 {
        marks_joined(conds.drop_last(), sep);
        marks_add(joined(conds.drop_last(), sep), sep);
        marks_add(joined(conds.drop_last(), sep) + sep, conds.last());
    }
}

proof fn literal_marks()
    ensures
        marks_in("\""@) == 0 && marks_in(" = "@) == 0 && marks_in(" != "@) == 0 && marks_in(" > "@) == 0
            && marks_in(" < "@) == 0 && marks_in("LOWER("@) == 0 && marks_in(") LIKE "@) == 0
            && marks_in(" IS NULL"@) == 0 && marks_in(" >= "@) == 0 && marks_in(" AND "@) == 0
            && marks_in("1 = 0"@) == 0 && marks_in("1 = 1"@) == 0 && marks_in("NOT ("@) == 0
            && marks_in(")"@) == 0 && marks_in("("@) == 0 && marks_in(" OR "@) == 0 && marks_in("?"@) == 1,
{
    reveal_strlit("\"");
    reveal_strlit(" = ");
    reveal_strlit(" != ");
    reveal_strlit(" > ");
    reveal_strlit(" < ");
    reveal_strlit("LOWER(");
    reveal_strlit(") LIKE ");
    reveal_strlit(" IS NULL");
    reveal_strlit(" >= ");
    reveal_strlit(" AND ");
    reveal_strlit("1 = 0");
    reveal_strlit("1 = 1");
    reveal_strlit("NOT (");
    reveal_strlit(")");
    reveal_strlit("(");
    reveal_strlit(" OR ");
    reveal_strlit("?");
    no_marks("\""@);
    no_marks(" = "@);
    no_marks(" != "@);
    no_marks(" > "@);
    no_marks(" < "@);
    no_marks("LOWER("@);
    no_marks(") LIKE "@);
    no_marks(" IS NULL"@);
    no_marks(" >= "@);
    no_marks(" AND "@);
    no_marks("1 = 0"@);
    no_marks("1 = 1"@);
    no_marks("NOT ("@);
    no_marks(")"@);
    no_marks("("@);
    no_marks(" OR "@);
    assert("?"@.drop_last() =~= Seq::<char>::empty());
    assert(marks_in("?"@.drop_last()) == 0);
    assert("?"@.last() == '?');
}

proof fn quoted_marks(n: Seq<char>)
    ensures
        marks_in(quoted(n)) == marks_in(n),
{
    literal_marks();
    marks_add("\""@, n);
    marks_add("\""@ + n, "\""@);
}

proof fn path_in(paths: Seq<Path>, field: Seq<char>)
    ensures
        path_for(paths, field) matches Some(p) ==> exists|i: int| 0 <= i < paths.len() && paths[i] == p,
    decreases paths.len(),
{
    if paths.len() > 0 && paths.last().field@ != field {
        path_in(paths.drop_last(), field);
        if let Some(p) = path_for(paths.drop_last(), field) {
            let i = choose|i: int| 0 <= i < paths.drop_last().len() && paths.drop_last()[i] == p;
            assert(paths[i] == p);
        }
    } else if paths.len() > 0 {
        assert(paths[paths.len() - 1] == paths.last());
    }
}

proof fn leaf_marks(paths: Seq<Path>, f: crate::spec::Filter, base: nat)
    requires
        forall|i: int| 0 <= i < paths.len() ==> marks_in(#[trigger] paths[i].head@) == 0,
        marks_in(f.field@) == 0,
    ensures
        marks_in(leaf_of(Dialect::Sqlite, paths, f, base).0) == leaf_of(Dialect::Sqlite, paths, f, base).1.len(),
{
    literal_marks();
    let m = mark_of(Dialect::Sqlite, base);
    assert(m == "?"@);
    assert(mark_of(Dialect::Sqlite, base + 1) == "?"@);
    let q = quoted(f.field@);
    quoted_marks(f.field@);
    path_in(paths, f.field@);
    match path_for(paths, f.field@) {
        Some(p) => {
            let i = choose|i: int| 0 <= i < paths.len() && paths[i] == p;
            assert(marks_in(paths[i].head@) == 0);
            marks_add(p.head@, m);
            marks_add(p.head@ + m, ")"@);
        },
        None => {
            match f.op {
                Op::Eq => { marks_add(q, " = "@); marks_add(q + " = "@, m); },
                Op::Ne => { marks_add(q, " != "@); marks_add(q + " != "@, m); },
                Op::More => { marks_add(q, " > "@); marks_add(q + " > "@, m); },
                Op::Less => { marks_add(q, " < "@); marks_add(q + " < "@, m); },
                Op::Like => {
                    marks_add("LOWER("@, q);
                    marks_add("LOWER("@ + q, ") LIKE "@);
                    marks_add("LOWER("@ + q + ") LIKE "@, m);
                },
                Op::Bare => { marks_add(q, " IS NULL"@); },
                Op::At => {
                    match f.value {
                        Value::DateTime(at) => {
                            let a = q + " >= "@;
                            marks_add(q, " >= "@);
                            marks_add(a, m);
                            marks_add(a + m, " AND "@);
                            marks_add(a + m + " AND "@, q);
                            marks_add(a + m + " AND "@ + q, " < "@);
                            marks_add(a + m + " AND "@ + q + " < "@, m);
                        },
                        _ => {},
                    }
                },
            }
        },
    }
}

proof fn group_marks(conds: Seq<Seq<char>>, op: Seq<char>, none: Seq<char>)
    requires
        marks_in(op) == 0,
        marks_in(none) == 0,
    ensures
        marks_in(group(conds, op, none)) == marks_all(conds),
{
    literal_marks();
    if conds.len() == 1 {
        assert(conds.drop_last() =~= Seq::<Seq<char>>::empty());
        assert(marks_all(conds.drop_last()) == 0);
        assert(conds.last() == conds[0]);
    } else if conds.len() > 1 {
        marks_joined(conds, op);
        marks_add("("@, joined(conds, op));
        marks_add("("@ + joined(conds, op), ")"@);
    }
}

/// In SQLite every `?` of a rendered condition stands for one bound parameter: the text holds
/// as many marks as parameters are bound, when no compared field and no subquery head holds a
/// `?` of its own.
pub proof fn marks_match_params(paths: Seq<Path>, node: Tree, base: nat)
    requires
        unmarked(paths, node),
    ensures
        marks_in(render(Dialect::Sqlite, paths, node, base).0) == render(Dialect::Sqlite, paths, node, base).1.len(),
    decreases node, 0nat,
{
    literal_marks();
    match node {
        Tree::Leaf(f) => {
            leaf_marks(paths, f, base);
        },
        Tree::And(parts) => {
            marks_match_all(paths, parts@, base);
            let (conds, ps) = render_all(Dialect::Sqlite, paths, parts@, base);
            group_marks(conds, " AND "@, Seq::empty());
        },
        Tree::Or(parts) => {
            marks_match_all(paths, parts@, base);
            let (conds, ps) = render_all(Dialect::Sqlite, paths, parts@, base);
            group_marks(conds, " OR "@, "1 = 0"@);
        },
        Tree::Cut(inner) => {
            marks_match_params(paths, *inner, base);
            let (c, ps) = render(Dialect::Sqlite, paths, *inner, base);
            if c.len() > 0 {
                marks_add("NOT ("@, c);
                marks_add("NOT ("@ + c, ")"@);
            } else {
                assert(marks_in(c) == 0);
            }
        },
    }
}

proof fn marks_match_all(paths: Seq<Path>, parts: Seq<Tree>, base: nat)
    requires
        forall|i: int| 0 <= i < paths.len() ==> marks_in(#[trigger] paths[i].head@) == 0,
        unmarked_all(paths, parts),
    ensures
        marks_all(render_all(Dialect::Sqlite, paths, parts, base).0) == render_all(Dialect::Sqlite, paths, parts, base).1.len(),
    decreases parts, 1nat,
{
    if parts.len() > 0 {
        let (conds, ps) = render_all(Dialect::Sqlite, paths, parts.drop_last(), base);
        assert(parts.len() - 1 < parts.len());
        marks_match_all(paths, parts.drop_last(), base);
        marks_match_params(paths, parts.last(), base + ps.len());
        let (c, p) = render(Dialect::Sqlite, paths, parts.last(), base + ps.len());
        if c.len() > 0 {
            assert(conds.push(c).drop_last() =~= conds);
        } else {
            assert(marks_in(c) == 0);
        }
    }
}

} // verus!
