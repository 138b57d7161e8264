use plic::registry::{BindError, Handler, Registry, StorageCell, TrapEntry};
use plic::Nr;

fn nr(v: u16) -> Nr {
    Nr::try_from(v).unwrap()
}

fn cell(name: &str, value: i64) -> StorageCell<i64> {
    StorageCell { name: name.to_string(), value }
}

/// Adds `step` to the first cell and counts the invocations in the second.
struct Accumulate {
    step: i64,
}

impl Handler<i64> for Accumulate {
    fn handle(&mut self, cells: &mut [i64]) {
        cells[0] += self.step;
        if cells.len() > 1 {
            cells[1] += 1;
        }
    }
}

#[test]
fn empty_registry_binds_nothing() {
    let mut registry: Registry<Accumulate, i64> = Registry::new();
    assert!(!registry.is_bound(nr(5)));
    assert_eq!(registry.cell(nr(5), &"TOTAL".to_string()), None);
    assert!(!registry.invoke(nr(5)));
}

#[test]
fn first_binding_installs_the_trap_entry() {
    let mut registry = Registry::new();
    assert_eq!(
        registry.bind(nr(5), Accumulate { step: 1 }, vec![cell("TOTAL", 0)]),
        Ok(TrapEntry::Install)
    );
    assert_eq!(
        registry.bind(nr(7), Accumulate { step: 1 }, vec![cell("TOTAL", 0)]),
        Ok(TrapEntry::Installed)
    );
    assert_eq!(registry.bind(nr(9), Accumulate { step: 1 }, vec![]), Ok(TrapEntry::Installed));
    assert!(registry.is_bound(nr(5)));
    assert!(registry.is_bound(nr(7)));
    assert!(registry.is_bound(nr(9)));
    assert!(!registry.is_bound(nr(6)));
}

#[test]
fn refused_first_binding_installs_nothing() {
    let mut registry = Registry::new();
    assert_eq!(
        registry.bind(nr(5), Accumulate { step: 1 }, vec![cell("A", 0), cell("A", 1)]),
        Err(BindError::DuplicateCell { index: 1 })
    );
    assert!(!registry.is_bound(nr(5)));
    assert_eq!(
        registry.bind(nr(5), Accumulate { step: 1 }, vec![cell("A", 0)]),
        Ok(TrapEntry::Install)
    );
}

#[test]
fn second_binding_of_a_source_is_refused() {
    let mut registry = Registry::new();
    registry.bind(nr(5), Accumulate { step: 1 }, vec![cell("TOTAL", 10)]).unwrap();
    assert_eq!(
        registry.bind(nr(5), Accumulate { step: 2 }, vec![cell("OTHER", 20)]),
        Err(BindError::AlreadyBound)
    );
    assert_eq!(registry.cell(nr(5), &"TOTAL".to_string()), Some(&10));
    assert_eq!(registry.cell(nr(5), &"OTHER".to_string()), None);
    assert!(registry.invoke(nr(5)));
    assert_eq!(registry.cell(nr(5), &"TOTAL".to_string()), Some(&11));
}

#[test]
fn already_bound_comes_before_duplicate_cell() {
    let mut registry = Registry::new();
    registry.bind(nr(5), Accumulate { step: 1 }, vec![cell("TOTAL", 10)]).unwrap();
    assert_eq!(
        registry.bind(nr(5), Accumulate { step: 2 }, vec![cell("A", 0), cell("A", 0)]),
        Err(BindError::AlreadyBound)
    );
}

#[test]
fn duplicate_cell_names_are_refused() {
    let mut registry = Registry::new();
    assert_eq!(
        registry.bind(
            nr(5),
            Accumulate { step: 1 },
            vec![cell("A", 0), cell("B", 0), cell("C", 0), cell("B", 0), cell("A", 0)]
        ),
        Err(BindError::DuplicateCell { index: 3 })
    );
    assert_eq!(
        registry.bind(
            nr(5),
            Accumulate { step: 1 },
            vec![cell("A", 0), cell("B", 0), cell("B", 0)]
        ),
        Err(BindError::DuplicateCell { index: 2 })
    );
    assert_eq!(
        registry.bind(nr(5), Accumulate { step: 1 }, vec![cell("", 0), cell("", 0)]),
        Err(BindError::DuplicateCell { index: 1 })
    );
    assert!(!registry.is_bound(nr(5)));
}

#[test]
fn same_cell_name_in_two_handlers_is_accepted() {
    let mut registry = Registry::new();
    registry.bind(nr(5), Accumulate { step: 1 }, vec![cell("COUNT", 0)]).unwrap();
    registry.bind(nr(6), Accumulate { step: 1 }, vec![cell("COUNT", 50)]).unwrap();
    assert_eq!(registry.cell(nr(5), &"COUNT".to_string()), Some(&0));
    assert_eq!(registry.cell(nr(6), &"COUNT".to_string()), Some(&50));
}

#[test]
fn cells_start_with_their_initial_values() {
    let mut registry = Registry::new();
    registry
        .bind(nr(5), Accumulate { step: 1 }, vec![cell("TOTAL", -4), cell("CALLS", 12)])
        .unwrap();
    assert_eq!(registry.cell(nr(5), &"TOTAL".to_string()), Some(&-4));
    assert_eq!(registry.cell(nr(5), &"CALLS".to_string()), Some(&12));
    assert_eq!(registry.cell(nr(5), &"calls".to_string()), None);
    assert_eq!(registry.cell(nr(6), &"TOTAL".to_string()), None);
}

#[test]
fn each_handler_accumulates_into_its_own_cells() {
    let mut registry = Registry::new();
    registry
        .bind(nr(5), Accumulate { step: 10 }, vec![cell("TOTAL", 0), cell("CALLS", 0)])
        .unwrap();
    registry
        .bind(nr(7), Accumulate { step: 1 }, vec![cell("TOTAL", 1000), cell("CALLS", 0)])
        .unwrap();
    let total = "TOTAL".to_string();
    let calls = "CALLS".to_string();
    for round in 1i64..=3 {
        assert!(registry.invoke(nr(5)));
        assert_eq!(registry.cell(nr(5), &total), Some(&(10 * round)));
        assert_eq!(registry.cell(nr(5), &calls), Some(&round));
        assert_eq!(registry.cell(nr(7), &total), Some(&(1000 + round - 1)));
        assert_eq!(registry.cell(nr(7), &calls), Some(&(round - 1)));
        assert!(registry.invoke(nr(7)));
        assert_eq!(registry.cell(nr(5), &total), Some(&(10 * round)));
        assert_eq!(registry.cell(nr(5), &calls), Some(&round));
        assert_eq!(registry.cell(nr(7), &total), Some(&(1000 + round)));
        assert_eq!(registry.cell(nr(7), &calls), Some(&round));
    }
    assert!(registry.invoke(nr(7)));
    assert!(registry.invoke(nr(7)));
    assert_eq!(registry.cell(nr(5), &total), Some(&30));
    assert_eq!(registry.cell(nr(5), &calls), Some(&3));
    assert_eq!(registry.cell(nr(7), &total), Some(&1005));
    assert_eq!(registry.cell(nr(7), &calls), Some(&5));
}

#[test]
fn invoke_of_an_unbound_source_runs_nothing() {
    let mut registry = Registry::new();
    registry.bind(nr(5), Accumulate { step: 10 }, vec![cell("TOTAL", 0)]).unwrap();
    assert!(!registry.invoke(nr(6)));
    assert_eq!(registry.cell(nr(5), &"TOTAL".to_string()), Some(&0));
}

/// Counts its invocations in itself: it declares no cell.
struct Count(u32);

impl Handler<i64> for Count {
    fn handle(&mut self, cells: &mut [i64]) {
        assert!(cells.is_empty());
        self.0 += 1;
    }
}

#[test]
fn handler_without_cells_is_run() {
    let mut registry = Registry::new();
    assert_eq!(registry.bind(nr(1023), Count(0), vec![]), Ok(TrapEntry::Install));
    assert!(registry.invoke(nr(1023)));
    assert!(registry.invoke(nr(1023)));
    assert_eq!(registry.cell(nr(1023), &"ANY".to_string()), None);
}

/// Moves the value of every cell to the cell before it, and that of the
/// first cell to the last.
struct Shift;

impl Handler<i64> for Shift {
    fn handle(&mut self, cells: &mut [i64]) {
        cells.rotate_left(1);
    }
}

#[test]
fn handler_is_handed_its_own_cells_in_order() {
    let mut registry = Registry::new();
    registry
        .bind(nr(5), Shift, vec![cell("A", 1), cell("B", 2), cell("C", 3)])
        .unwrap();
    registry.bind(nr(6), Shift, vec![cell("A", 7), cell("B", 8)]).unwrap();
    assert!(registry.invoke(nr(5)));
    assert_eq!(registry.cell(nr(5), &"A".to_string()), Some(&2));
    assert_eq!(registry.cell(nr(5), &"B".to_string()), Some(&3));
    assert_eq!(registry.cell(nr(5), &"C".to_string()), Some(&1));
    assert_eq!(registry.cell(nr(6), &"A".to_string()), Some(&7));
    assert_eq!(registry.cell(nr(6), &"B".to_string()), Some(&8));
    assert!(registry.invoke(nr(5)));
    assert!(registry.invoke(nr(6)));
    assert_eq!(registry.cell(nr(5), &"A".to_string()), Some(&3));
    assert_eq!(registry.cell(nr(5), &"B".to_string()), Some(&1));
    assert_eq!(registry.cell(nr(5), &"C".to_string()), Some(&2));
    assert_eq!(registry.cell(nr(6), &"A".to_string()), Some(&8));
    assert_eq!(registry.cell(nr(6), &"B".to_string()), Some(&7));
}
