use lme::chemistry::{element_num_to_symbol, validated_element_num, Atom3D, Position};
use lme::group_name::{GroupName, IdMap};
use lme::layer::{complete_isometry, Filtered, Layer, SelectMany, SelectOne, StructuralError};
use lme::output::{substituent_output, xyz_document};
use lme::sparse_molecule::{SparseAtomList, SparseBondMatrix, SparseMolecule};
use lme::substituent::{Substituent, SubstituentError};
use lme::text::{format_usize, parse_usize, substitute_template};
use lme::workflow_data::{
    execute_add_layers, step_finish, RunnerOutput, Window, WorkflowData,
};
use lme::workspace::{read_stack, LayerStorage, StackCache, StackOutcome};

fn pos(x: f64, y: f64, z: f64) -> Position {
    Position {
        x: x.to_bits(),
        y: y.to_bits(),
        z: z.to_bits(),
    }
}

fn atom(element: usize, x: f64, y: f64, z: f64) -> Atom3D {
    Atom3D {
        element,
        position: pos(x, y, z),
    }
}

fn order(x: f64) -> u64 {
    x.to_bits()
}

/// A sparse list with a carbon, a hole, an oxygen, an invalid entry and
/// a hydrogen.
fn sample_list() -> SparseAtomList {
    SparseAtomList(vec![
        Some(atom(6, 0.0, 0.0, 0.0)),
        None,
        Some(atom(8, 1.0, 0.0, 0.0)),
        Some(atom(999, 2.0, 0.0, 0.0)),
        Some(atom(1, 3.0, 0.0, 0.0)),
    ])
}

#[test]
fn element_validation_bounds() {
    assert!(!validated_element_num(0));
    assert!(validated_element_num(1));
    assert!(validated_element_num(118));
    assert!(!validated_element_num(119));
}

#[test]
fn element_symbols() {
    assert_eq!(element_num_to_symbol(1), Some("H"));
    assert_eq!(element_num_to_symbol(6), Some("C"));
    assert_eq!(element_num_to_symbol(8), Some("O"));
    assert_eq!(element_num_to_symbol(118), Some("Og"));
    assert_eq!(element_num_to_symbol(0), None);
    assert_eq!(element_num_to_symbol(200), None);
}

#[test]
fn continuous_index_round_trip() {
    let list = sample_list();
    assert_eq!(list.to_continuous_index(0), Some(0));
    assert_eq!(list.to_continuous_index(1), None);
    assert_eq!(list.to_continuous_index(2), Some(1));
    assert_eq!(list.to_continuous_index(3), None);
    assert_eq!(list.to_continuous_index(4), Some(2));
    assert_eq!(list.to_continuous_index(7), None);
    assert_eq!(list.from_continuous_index(0), Some(0));
    assert_eq!(list.from_continuous_index(1), Some(2));
    assert_eq!(list.from_continuous_index(2), Some(4));
    assert_eq!(list.from_continuous_index(3), None);
    for i in [0usize, 2, 4] {
        let k = list.to_continuous_index(i).unwrap();
        assert_eq!(list.from_continuous_index(k), Some(i));
    }
}

#[test]
fn atom_list_offset_and_migrate() {
    let list = sample_list();
    let shifted = list.offset(2);
    assert_eq!(shifted.len(), 7);
    assert_eq!(shifted.read_atom(0), None);
    assert_eq!(shifted.read_atom(2), Some(atom(6, 0.0, 0.0, 0.0)));
    let mut target = SparseAtomList(vec![Some(atom(6, 0.0, 0.0, 0.0))]);
    let incoming = SparseAtomList(vec![None, Some(atom(1, 1.0, 0.0, 0.0))]);
    target.migrate(incoming);
    assert_eq!(target.len(), 2);
    assert_eq!(target.read_atom(0), Some(atom(6, 0.0, 0.0, 0.0)));
    assert_eq!(target.read_atom(1), Some(atom(1, 1.0, 0.0, 0.0)));
}

#[test]
fn migrate_identity_on_lists() {
    let mut list = sample_list();
    let before = list.clone();
    list.migrate(SparseAtomList::default());
    assert_eq!(list, before);
}

#[test]
fn update_from_continuous_list_replaces_in_order() {
    let list = sample_list();
    let replacement = vec![
        atom(7, 9.0, 0.0, 0.0),
        atom(7, 8.0, 0.0, 0.0),
        atom(7, 7.0, 0.0, 0.0),
    ];
    let updated = list.update_from_continuous_list(&replacement).unwrap();
    assert_eq!(updated.read_atom(0), Some(atom(7, 9.0, 0.0, 0.0)));
    assert_eq!(updated.read_atom(1), None);
    assert_eq!(updated.read_atom(2), Some(atom(7, 8.0, 0.0, 0.0)));
    assert_eq!(updated.read_atom(3), Some(atom(999, 2.0, 0.0, 0.0)));
    assert_eq!(updated.read_atom(4), Some(atom(7, 7.0, 0.0, 0.0)));
    let short = vec![atom(7, 9.0, 0.0, 0.0)];
    assert!(list.update_from_continuous_list(&short).is_none());
}

#[test]
fn bond_matrix_symmetric_reads() {
    let mut m = SparseBondMatrix::new(2);
    m.set_bond(0, 3, Some(order(1.0)));
    assert_eq!(m.len(), 4);
    assert_eq!(m.read_bond(0, 3), Some(order(1.0)));
    assert_eq!(m.read_bond(3, 0), Some(order(1.0)));
    assert_eq!(m.read_bond(1, 2), None);
    assert_eq!(m.read_bond(9, 0), None);
}

#[test]
fn bond_matrix_offset_pads_with_none() {
    let mut m = SparseBondMatrix::new(2);
    m.set_bond(0, 1, Some(order(2.0)));
    let shifted = m.offset(3);
    assert_eq!(shifted.len(), 5);
    for a in 0..3usize {
        for b in 0..5usize {
            assert_eq!(shifted.read_bond(a, b), None);
            assert_eq!(shifted.read_bond(b, a), None);
        }
    }
    assert_eq!(shifted.read_bond(3, 4), Some(order(2.0)));
    assert_eq!(shifted.read_bond(4, 3), Some(order(2.0)));
}

#[test]
fn bond_matrix_continuous_list_skips_zero_orders() {
    let list = sample_list();
    let mut m = SparseBondMatrix::new(5);
    m.set_bond(0, 2, Some(order(1.5)));
    m.set_bond(0, 4, Some(order(0.0)));
    m.set_bond(2, 3, Some(order(1.0)));
    m.set_bond(2, 4, Some(order(-0.0)));
    let triples = m.to_continuous_list(&list);
    assert_eq!(triples, vec![(0, 1, order(1.5))]);
}

#[test]
fn molecule_migrate_identity() {
    let mut mol = SparseMolecule {
        atoms: sample_list(),
        bonds: SparseBondMatrix::new(5),
        ids: Some(IdMap(vec![("c".to_string(), 0)])),
        groups: Some(GroupName(vec![("all".to_string(), 0)])),
        title: "probe".to_string(),
    };
    let before = mol.clone();
    mol.migrate(SparseMolecule::default());
    assert_eq!(mol, before);
}

#[test]
fn layer_application_is_deterministic() {
    let base = SparseMolecule {
        atoms: sample_list(),
        bonds: SparseBondMatrix::new(5),
        ids: None,
        groups: None,
        title: String::new(),
    };
    let layer = Layer::SetAtom {
        index: 7,
        atom: Some(atom(2, 5.0, 5.0, 5.0)),
    };
    let once = layer.filter(base.clone()).unwrap();
    let twice = layer.filter(base).unwrap();
    assert_eq!(once, twice);
    match once {
        Filtered::Done(m) => {
            assert_eq!(m.atoms.len(), 8);
            assert_eq!(m.atoms.read_atom(7), Some(atom(2, 5.0, 5.0, 5.0)));
            assert_eq!(m.atoms.read_atom(5), None);
        }
        Filtered::Pending(_) => panic!("pure layer must not suspend"),
    }
}

#[test]
fn group_map_range_out_of_bounds() {
    let base = SparseMolecule {
        atoms: sample_list(),
        bonds: SparseBondMatrix::new(5),
        ids: None,
        groups: None,
        title: String::new(),
    };
    let layer = Layer::GroupMap(vec![("g".to_string(), SelectMany::Range(0, 9))]);
    assert_eq!(
        layer.filter(base.clone()),
        Err(StructuralError::RangeOutOfBounds)
    );
    let unknown = Layer::RemoveAtoms(SelectMany::Group("missing".to_string()));
    assert_eq!(
        unknown.filter(base.clone()),
        Err(StructuralError::UnknownSelector)
    );
    let ids = Layer::IdMap(vec![("x".to_string(), 99)]);
    assert_eq!(ids.filter(base), Err(StructuralError::RangeOutOfBounds));
}

#[test]
fn fill_merges_slotwise() {
    let base = SparseMolecule {
        atoms: SparseAtomList(vec![Some(atom(6, 0.0, 0.0, 0.0))]),
        bonds: SparseBondMatrix::new(1),
        ids: None,
        groups: None,
        title: "base".to_string(),
    };
    let overlay = SparseMolecule {
        atoms: SparseAtomList(vec![None, Some(atom(1, 1.0, 0.0, 0.0))]),
        bonds: {
            let mut m = SparseBondMatrix::new(0);
            m.set_bond(0, 1, Some(order(1.0)));
            m
        },
        ids: None,
        groups: None,
        title: String::new(),
    };
    match Layer::Fill(overlay).filter(base).unwrap() {
        Filtered::Done(m) => {
            assert_eq!(m.atoms.len(), 2);
            assert_eq!(m.atoms.read_atom(0), Some(atom(6, 0.0, 0.0, 0.0)));
            assert_eq!(m.atoms.read_atom(1), Some(atom(1, 1.0, 0.0, 0.0)));
            assert_eq!(m.bonds.read_bond(0, 1), Some(order(1.0)));
            assert_eq!(m.title, "base");
        }
        Filtered::Pending(_) => panic!("fill must not suspend"),
    }
}

#[test]
fn materialize_empty_path_is_base() {
    let base = SparseMolecule {
        atoms: sample_list(),
        bonds: SparseBondMatrix::new(5),
        ids: None,
        groups: None,
        title: "b".to_string(),
    };
    let storage = LayerStorage::default();
    let path: Vec<usize> = vec![];
    match read_stack(base.clone(), &storage, &path, 0).unwrap() {
        StackOutcome::Done(m) => assert_eq!(m, base),
        _ => panic!("empty path must materialize"),
    }
}

#[test]
fn materialize_folds_layers_in_order() {
    let base = SparseMolecule {
        atoms: SparseAtomList(vec![Some(atom(6, 0.0, 0.0, 0.0))]),
        bonds: SparseBondMatrix::new(1),
        ids: None,
        groups: None,
        title: String::new(),
    };
    let mut storage = LayerStorage::default();
    let (start, end) = storage.create_layers(vec![
        Layer::SetAtom {
            index: 1,
            atom: Some(atom(1, 1.0, 0.0, 0.0)),
        },
        Layer::SetBond {
            a: 0,
            b: 1,
            order: Some(order(1.0)),
        },
    ]);
    assert_eq!((start, end), (0, 2));
    let path = vec![0usize, 1usize];
    match read_stack(base.clone(), &storage, &path, 0).unwrap() {
        StackOutcome::Done(m) => {
            assert_eq!(m.atoms.len(), 2);
            assert_eq!(m.bonds.read_bond(0, 1), Some(order(1.0)));
        }
        _ => panic!("pure path must materialize"),
    }
    let missing = vec![0usize, 9usize];
    assert!(read_stack(base, &storage, &missing, 0).is_err());
}

#[test]
fn stack_cache_returns_inserted() {
    let mut cache = StackCache::default();
    let m = SparseMolecule::default();
    cache.insert(vec![1, 2], m.clone());
    assert_eq!(cache.get(&vec![1, 2]), Some(&m));
    assert!(cache.get(&vec![1]).is_none());
}

#[test]
fn isometry_layer_suspends_and_completes() {
    let base = SparseMolecule {
        atoms: sample_list(),
        bonds: SparseBondMatrix::new(5),
        ids: None,
        groups: None,
        title: String::new(),
    };
    let transform = lme::chemistry::RigidTransform {
        rot_w: 1.0f64.to_bits(),
        rot_i: 0,
        rot_j: 0,
        rot_k: 0,
        trans_x: 1.0f64.to_bits(),
        trans_y: 0,
        trans_z: 0,
    };
    let layer = Layer::Isometry {
        isometry: transform,
        select: SelectMany::All,
    };
    match layer.filter(base).unwrap() {
        Filtered::Done(_) => panic!("rigid transform must suspend"),
        Filtered::Pending(task) => {
            assert_eq!(task.targets, vec![0, 2, 3, 4]);
            let moved: Vec<Position> = task
                .targets
                .iter()
                .map(|&i| {
                    let p = task.molecule.atoms.read_atom(i).unwrap().position;
                    pos(f64::from_bits(p.x) + 1.0, f64::from_bits(p.y), f64::from_bits(p.z))
                })
                .collect();
            let done = complete_isometry(task, &moved);
            assert_eq!(done.atoms.read_atom(0), Some(atom(6, 1.0, 0.0, 0.0)));
            assert_eq!(done.atoms.read_atom(1), None);
            assert_eq!(done.atoms.read_atom(4), Some(atom(1, 4.0, 0.0, 0.0)));
        }
    }
}

#[test]
fn empty_workflow_state() {
    let wd = WorkflowData::default();
    assert_eq!(wd.stacks, vec![Vec::<usize>::new()]);
    assert_eq!(wd.windows.len(), 1);
    assert_eq!(wd.windows[0].0, "base");
    assert_eq!(wd.windows[0].1, Window { start: 0, end: 1 });
    assert_eq!(wd.current_window, Window { start: 0, end: 1 });
}

#[test]
fn add_layers_fan_in() {
    let mut wd = WorkflowData::default();
    let window = wd.current_window_stacks().unwrap();
    let output = execute_add_layers(
        &mut wd.layers,
        &window,
        vec![
            Layer::SetAtom {
                index: 0,
                atom: Some(atom(6, 0.0, 0.0, 0.0)),
            },
            Layer::SetAtom {
                index: 1,
                atom: Some(atom(1, 1.0, 0.0, 0.0)),
            },
        ],
    );
    match &output {
        RunnerOutput::Serial(v) => assert_eq!(v, &vec![vec![0usize, 1usize]]),
        _ => panic!("add layers must be serial"),
    }
    let prefix = "0".to_string();
    let overwrote = step_finish(&mut wd, output, &prefix, None);
    assert!(!overwrote);
    assert_eq!(wd.stacks, vec![vec![], vec![0, 1]]);
    assert_eq!(wd.current_window, Window { start: 1, end: 2 });
}

#[test]
fn named_substituent_step_windows() {
    let mut wd = WorkflowData::default();
    wd.stacks = vec![vec![], vec![]];
    wd.current_window = Window { start: 0, end: 2 };
    let window = wd.current_window_stacks().unwrap();
    let mol = |t: &str| SparseMolecule {
        atoms: SparseAtomList(vec![Some(atom(1, 0.0, 0.0, 0.0))]),
        bonds: SparseBondMatrix::new(1),
        ids: None,
        groups: None,
        title: t.to_string(),
    };
    let generated = vec![
        ("amine".to_string(), vec![mol("a0"), mol("a1")]),
        ("ethyl".to_string(), vec![mol("e0"), mol("e1")]),
        ("methyl".to_string(), vec![mol("m0"), mol("m1")]),
    ];
    let output = substituent_output(&mut wd.layers, &window, generated);
    match &output {
        RunnerOutput::Named(groups) => {
            assert_eq!(groups.len(), 3);
            assert_eq!(groups[0].0, "amine");
            assert_eq!(groups[0].1, vec![vec![0usize], vec![1usize]]);
            assert_eq!(groups[2].1, vec![vec![4usize], vec![5usize]]);
        }
        _ => panic!("substituent output must be named"),
    }
    let prefix = "sub".to_string();
    step_finish(&mut wd, output, &prefix, Some("sub".to_string()));
    assert_eq!(wd.stacks.len(), 8);
    assert_eq!(wd.current_window, Window { start: 2, end: 8 });
    assert_eq!(wd.window_get(&"sub_amine".to_string()), Some(Window { start: 2, end: 4 }));
    assert_eq!(wd.window_get(&"sub_ethyl".to_string()), Some(Window { start: 4, end: 6 }));
    assert_eq!(wd.window_get(&"sub_methyl".to_string()), Some(Window { start: 6, end: 8 }));
    assert_eq!(wd.window_get(&"sub".to_string()), Some(Window { start: 2, end: 8 }));
}

/// One pure step: add one atom-writing layer over the current window.
fn demo_step(wd: &mut WorkflowData, i: usize) {
    let window = wd.current_window_stacks().unwrap();
    let output = execute_add_layers(
        &mut wd.layers,
        &window,
        vec![Layer::SetAtom {
            index: i,
            atom: Some(atom(1, i as f64, 0.0, 0.0)),
        }],
    );
    let prefix = format_usize(i);
    step_finish(wd, output, &prefix, None);
}

#[test]
fn checkpoint_resume_matches_uninterrupted_run() {
    let mut full = WorkflowData::default();
    for i in 0..5 {
        demo_step(&mut full, i);
    }
    let mut interrupted = WorkflowData::default();
    for i in 0..3 {
        demo_step(&mut interrupted, i);
    }
    let mut resumed = interrupted.clone();
    for i in 3..5 {
        demo_step(&mut resumed, i);
    }
    assert_eq!(resumed, full);
}

#[test]
fn xyz_atom_map() {
    let mol = SparseMolecule {
        atoms: sample_list(),
        bonds: SparseBondMatrix::new(5),
        ids: None,
        groups: None,
        title: "probe".to_string(),
    };
    let doc = xyz_document(&mol);
    assert_eq!(doc.title, "probe");
    assert_eq!(doc.atom_count, 3);
    assert_eq!(doc.lines.len(), 3);
    assert_eq!(doc.atom_map, vec![(0, 0), (2, 1), (4, 2)]);
    assert_eq!(doc.lines[0].0, "C");
    assert_eq!(doc.lines[1].0, "O");
    assert_eq!(doc.lines[2].0, "H");
    assert_eq!(doc.lines[1].1, pos(1.0, 0.0, 0.0));
}

#[test]
fn decimal_round_trip() {
    assert_eq!(format_usize(0), "0");
    assert_eq!(format_usize(905), "905");
    assert_eq!(parse_usize("905"), Some(905));
    assert_eq!(parse_usize(""), None);
    assert_eq!(parse_usize("12a"), None);
    for n in [0usize, 7, 10, 1234567] {
        assert_eq!(parse_usize(&format_usize(n)), Some(n));
    }
}

#[test]
fn template_substitution_is_literal() {
    let pairs = vec![
        ("name".to_string(), "water".to_string()),
        ("charge".to_string(), "0".to_string()),
    ];
    let out = substitute_template("run {{ name }} at {{ charge }} and {{ name }}", &pairs);
    assert_eq!(out, "run water at 0 and water");
    let untouched = substitute_template("{{name}} stays", &pairs);
    assert_eq!(untouched, "{{name}} stays");
}

fn attachment_target() -> SparseMolecule {
    let mut bonds = SparseBondMatrix::new(2);
    bonds.set_bond(0, 1, Some(order(1.0)));
    SparseMolecule {
        atoms: SparseAtomList(vec![
            Some(atom(6, 0.0, 0.0, 0.0)),
            Some(atom(1, 1.0, 0.0, 0.0)),
        ]),
        bonds,
        ids: None,
        groups: None,
        title: "methane".to_string(),
    }
}

fn hydrogen_pair() -> Substituent {
    let mut bonds = SparseBondMatrix::new(2);
    bonds.set_bond(0, 1, Some(order(1.0)));
    Substituent::new(
        SelectOne::Index(1),
        SelectOne::Index(0),
        SparseMolecule {
            atoms: SparseAtomList(vec![
                Some(atom(1, 0.0, 0.0, 0.0)),
                Some(atom(1, 1.0, 0.0, 0.0)),
            ]),
            bonds,
            ids: None,
            groups: Some(GroupName(vec![("pair".to_string(), 0)])),
            title: String::new(),
        },
        "hydro".to_string(),
    )
}

#[test]
fn alignment_atom_errors() {
    let target = attachment_target();
    let sub = hydrogen_pair();
    let ok = sub
        .alignment_atoms(&target, &SelectOne::Index(0), &SelectOne::Index(1))
        .unwrap();
    assert_eq!(ok.target_entry, atom(6, 0.0, 0.0, 0.0));
    assert_eq!(ok.target_exit, atom(1, 1.0, 0.0, 0.0));
    assert_eq!(ok.on_body, atom(1, 0.0, 0.0, 0.0));
    assert_eq!(ok.direction, atom(1, 1.0, 0.0, 0.0));
    assert_eq!(
        sub.alignment_atoms(&target, &SelectOne::Index(9), &SelectOne::Index(1)),
        Err(SubstituentError::EntryAtomNotFoundInTarget)
    );
    assert_eq!(
        sub.alignment_atoms(&target, &SelectOne::Index(0), &SelectOne::Index(9)),
        Err(SubstituentError::ExitAtomNotFoundInTarget)
    );
    let mut broken = hydrogen_pair();
    broken.direction = SelectOne::Index(7);
    assert_eq!(
        broken.alignment_atoms(&target, &SelectOne::Index(0), &SelectOne::Index(1)),
        Err(SubstituentError::DirectionAtomNotFoundInSubstituent)
    );
    let mut broken2 = hydrogen_pair();
    broken2.on_body = SelectOne::Id("nope".to_string());
    assert_eq!(
        broken2.alignment_atoms(&target, &SelectOne::Index(0), &SelectOne::Index(1)),
        Err(SubstituentError::OnBodyAtomNotFoundInSubstituent)
    );
}

/// The aligned attachment: the fragment's outward direction already
/// matches the target's, so the rigid transform is the identity and the
/// moved on-body atom stands exactly on the entry position.
#[test]
fn hydrogen_attachment_structural() {
    let target = attachment_target();
    let sub = hydrogen_pair();
    // The aligning transform here is the identity, so the moved list is
    // the fragment's own atom list.
    let moved = sub.structure.atoms.clone();
    let overlay = sub
        .generate_layer_moved(&target, &SelectOne::Index(0), moved)
        .unwrap();
    // The moved on-body atom lands on the entry slot, at the entry
    // atom's own position.
    assert_eq!(overlay.atoms.read_atom(0), Some(atom(1, 0.0, 0.0, 0.0)));
    // Both designated fragment slots are cleared in the shifted range.
    assert_eq!(overlay.atoms.read_atom(2), None);
    assert_eq!(overlay.atoms.read_atom(3), None);
    // The fragment's bond around the on-body atom is wired to the entry
    // slot at the shifted column of its old neighbor.
    assert_eq!(overlay.bonds.read_bond(0, 3), Some(order(1.0)));
    // Group labels carry the substituent's name as a prefix, with the
    // bound index shifted past the target.
    assert_eq!(
        overlay.groups,
        Some(GroupName(vec![("hydro_pair".to_string(), 2)]))
    );
    assert_eq!(overlay.ids, None);
    assert_eq!(overlay.title, "methane_hydro");
    // Merging the overlay keeps the target's own bond at the entry slot.
    match Layer::Fill(overlay).filter(target).unwrap() {
        Filtered::Done(m) => {
            assert_eq!(m.atoms.len(), 4);
            assert_eq!(m.bonds.read_bond(0, 1), Some(order(1.0)));
            assert_eq!(m.title, "methane_hydro");
        }
        Filtered::Pending(_) => panic!("fill must not suspend"),
    }
}

#[test]
fn window_resolution_and_shadowing() {
    let mut wd = WorkflowData::default();
    assert_eq!(
        wd.resolve_from(&Some("missing".to_string())),
        Err(lme::workflow_data::WorkflowError::WindowNotFound)
    );
    wd.stacks.push(vec![]);
    let overwrote = wd.window_set("base".to_string(), Window { start: 1, end: 2 });
    assert!(overwrote);
    assert_eq!(
        wd.window_get(&"base".to_string()),
        Some(Window { start: 1, end: 2 })
    );
    wd.resolve_from(&Some("base".to_string())).unwrap();
    assert_eq!(wd.current_window, Window { start: 1, end: 2 });
}

#[test]
fn window_past_stacks_is_out_of_range() {
    let mut wd = WorkflowData::default();
    wd.current_window = Window { start: 0, end: 3 };
    assert_eq!(
        wd.current_window_stacks(),
        Err(lme::workflow_data::WorkflowError::StackIdOutOfRange(1))
    );
}

#[test]
fn failing_layer_fails_the_stack() {
    let base = SparseMolecule::default();
    let mut storage = LayerStorage::default();
    storage.create_layers(vec![Layer::RemoveAtoms(SelectMany::Group(
        "missing".to_string(),
    ))]);
    let path = vec![0usize];
    assert_eq!(
        read_stack(base, &storage, &path, 0),
        Err(lme::workspace::LayerStorageError::FilterError(
            StructuralError::UnknownSelector
        ))
    );
}

#[test]
fn removing_unused_layers_keeps_referenced_ids() {
    let mut storage = LayerStorage::default();
    storage.create_layers(vec![
        Layer::IdMap(vec![]),
        Layer::IdMap(vec![]),
        Layer::IdMap(vec![]),
    ]);
    let stacks = vec![vec![1usize]];
    storage.remove_unused(&stacks);
    assert!(storage.read_layer(0).is_none());
    assert!(storage.read_layer(1).is_some());
    assert!(storage.read_layer(2).is_none());
}

#[test]
fn well_formedness_checkers() {
    let good = SparseMolecule {
        atoms: sample_list(),
        bonds: SparseBondMatrix::new(5),
        ids: Some(IdMap(vec![("c".to_string(), 0), ("o".to_string(), 2)])),
        groups: Some(GroupName(vec![("all".to_string(), 4)])),
        title: String::new(),
    };
    assert!(good.check_wf());
    let ragged = SparseBondMatrix(vec![vec![None, None], vec![None]]);
    assert!(!ragged.check_wf());
    let asymmetric = SparseBondMatrix(vec![
        vec![None, Some(order(1.0))],
        vec![None, None],
    ]);
    assert!(!asymmetric.check_wf());
    let mut bad_ids = good.clone();
    bad_ids.ids = Some(IdMap(vec![("c".to_string(), 0), ("c".to_string(), 2)]));
    assert!(!bad_ids.check_wf());
    let mut bad_group = good.clone();
    bad_group.groups = Some(GroupName(vec![("all".to_string(), 9)]));
    assert!(!bad_group.check_wf());
    let mut storage = LayerStorage::default();
    storage.create_layers(vec![Layer::IdMap(vec![])]);
    assert!(storage.check_wf());
    let broken = LayerStorage(vec![Some(Layer::Fill(bad_group))]);
    assert!(!broken.check_wf());
}

#[test]
fn cache_misses_without_entry_and_serves_oldest() {
    let mut cache = StackCache::default();
    assert!(cache.get(&vec![3]).is_none());
    let first = SparseMolecule::default();
    let mut second = SparseMolecule::default();
    second.title = "later".to_string();
    cache.insert(vec![3], first.clone());
    cache.insert(vec![3], second);
    assert_eq!(cache.get(&vec![3]), Some(&first));
}
