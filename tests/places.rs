use dada_model::grammar::{Access, FieldId, Place, Projection, ValueId, Var};

fn place(var: u64, fields: &[u64]) -> Place {
    Place {
        var: Var::Id(ValueId(var)),
        projections: fields.iter().map(|f| Projection::Field(FieldId(*f))).collect(),
    }
}

#[test]
fn prefix_includes_equal_and_longer() {
    assert!(place(1, &[]).is_prefix_of(&place(1, &[2, 3])));
    assert!(place(1, &[2]).is_prefix_of(&place(1, &[2])));
    assert!(!place(1, &[2]).is_prefix_of(&place(1, &[3])));
    assert!(!place(1, &[2, 3]).is_prefix_of(&place(1, &[2])));
    assert!(!place(1, &[]).is_prefix_of(&place(2, &[])));
}

#[test]
fn strict_prefix_excludes_equal() {
    assert!(place(1, &[]).is_strict_prefix_of(&place(1, &[2])));
    assert!(!place(1, &[2]).is_strict_prefix_of(&place(1, &[2])));
    assert!(!place(1, &[2]).is_strict_prefix_of(&place(1, &[4, 5])));
}

#[test]
fn prefix_is_transitive_on_a_chain() {
    let p = place(1, &[]);
    let q = place(1, &[2]);
    let r = place(1, &[2, 3]);
    assert!(p.is_prefix_of(&q) && q.is_prefix_of(&r));
    assert!(p.is_prefix_of(&r));
}

#[test]
fn disjointness_is_symmetric() {
    let pairs = [
        (place(1, &[2]), place(1, &[3])),
        (place(1, &[2]), place(1, &[2, 3])),
        (place(1, &[]), place(2, &[])),
        (place(4, &[5, 6]), place(4, &[5, 6])),
    ];
    for (p, q) in pairs.iter() {
        assert_eq!(p.is_disjoint_from(q), q.is_disjoint_from(p));
    }
    assert!(place(1, &[2]).is_disjoint_from(&place(1, &[3])));
    assert!(!place(1, &[2]).is_disjoint_from(&place(1, &[2, 3])));
    assert!(place(1, &[2, 3]).is_overlapping_with(&place(1, &[2])));
}

#[test]
fn strict_prefixes_shortest_first() {
    let p = place(1, &[2, 3]);
    let prefixes = p.strict_prefixes();
    assert_eq!(prefixes.len(), 2);
    assert_eq!(prefixes[0].var, Var::Id(ValueId(1)));
    assert!(prefixes[0].projections.is_empty());
    assert_eq!(prefixes[1].projections, vec![Projection::Field(FieldId(2))]);
    assert!(place(1, &[]).strict_prefixes().is_empty());
}

#[test]
fn owner_field_strips_last_projection() {
    let p = place(1, &[2, 3]);
    let (owner, field) = p.owner_field().unwrap();
    assert_eq!(owner.projections, vec![Projection::Field(FieldId(2))]);
    assert_eq!(field, Projection::Field(FieldId(3)));
    assert!(place(1, &[]).owner_field().is_none());
    let o = p.owner().unwrap();
    assert_eq!(o.var, Var::Id(ValueId(1)));
    assert_eq!(o.projections.len(), 1);
    assert!(place(1, &[]).owner().is_none());
}

#[test]
fn project_and_dot_extend_places() {
    let p = place(1, &[2]).project(Projection::Field(FieldId(7)));
    assert_eq!(
        p.projections,
        vec![Projection::Field(FieldId(2)), Projection::Field(FieldId(7))]
    );
    let d = Var::This.dot(FieldId(4));
    assert_eq!(d.var, Var::This);
    assert_eq!(d.projections, vec![Projection::Field(FieldId(4))]);
    let c = p.clone();
    assert_eq!(c.projections, p.projections);
    assert!(Place::from_var(Var::Return).projections.is_empty());
}

#[test]
fn move_becomes_drop() {
    assert_eq!(Access::Mv.move_to_drop(), Access::Drop);
    assert_eq!(Access::Drop.move_to_drop(), Access::Drop);
    assert_eq!(Access::Sh.move_to_drop(), Access::Sh);
    assert_eq!(Access::Rf.move_to_drop(), Access::Rf);
    assert_eq!(Access::Mt.move_to_drop(), Access::Mt);
}
