use vssard::datapoint::{set_datapoint_target_value, set_datapoint_value, DatapointTable};
use vssard::metadata::{register_datapoint, Metadata, MetadataTable};
use vssard::value::Datatype;

fn entry(path: &str) -> Metadata {
    Metadata::new(
        String::from(path),
        String::from("sensor"),
        String::new(),
        String::from("float"),
        7,
    )
}

#[test]
fn ids_are_assigned_in_registration_order() {
    let mut table = MetadataTable::new();
    assert_eq!(register_datapoint(&mut table, entry("A")), Ok(0));
    assert_eq!(register_datapoint(&mut table, entry("B")), Ok(1));
    assert!(register_datapoint(&mut table, entry("A")).is_err());
    assert_eq!(register_datapoint(&mut table, entry("C")), Ok(2));
    assert_eq!(table.len(), 3);
    for i in 0..3usize {
        assert_eq!(table.entry(i).id, i as u32);
    }
    assert_eq!(table.entry(2).path, "C");
}

#[test]
fn registering_a_path_twice_is_a_conflict() {
    let mut table = MetadataTable::new();
    assert_eq!(register_datapoint(&mut table, entry("Vehicle.Speed")), Ok(0));
    let second = register_datapoint(&mut table, entry("Vehicle.Speed"));
    assert_eq!(
        second,
        Err(String::from("Datapoint Vehicle.Speed already registered!"))
    );
    assert_eq!(table.len(), 1);
    assert_eq!(table.find(&String::from("Vehicle.Speed")), Some(0));
}

#[test]
fn registration_overrides_the_given_id() {
    let mut table = MetadataTable::new();
    register_datapoint(&mut table, entry("X")).unwrap();
    let m = table.entry(0);
    assert_eq!(m.id, 0);
    assert_eq!(m.type_, "sensor");
    assert_eq!(m.datatype, "float");
    assert_eq!(table.find(&String::from("Y")), None);
}

#[test]
fn set_value_creates_a_row_without_target() {
    let mut table = DatapointTable::new();
    assert_eq!(set_datapoint_value(&mut table, 3, Datatype::I32(-5)), Ok(()));
    let row = table.find(3).unwrap();
    assert_eq!(row.id, 3);
    assert_eq!(row.value, Datatype::I32(-5));
    assert_eq!(row.target_value, None);
    assert_eq!(table.len(), 1);
}

#[test]
fn set_value_keeps_the_target() {
    let mut table = DatapointTable::new();
    set_datapoint_value(&mut table, 1, Datatype::U32(10)).unwrap();
    set_datapoint_target_value(&mut table, 1, Datatype::U32(20)).unwrap();
    assert_eq!(set_datapoint_value(&mut table, 1, Datatype::U32(11)), Ok(()));
    let row = table.find(1).unwrap();
    assert_eq!(row.value, Datatype::U32(11));
    assert_eq!(row.target_value, Some(Datatype::U32(20)));
    assert_eq!(table.len(), 1);
}

#[test]
fn set_value_twice_converges() {
    let mut table = DatapointTable::new();
    set_datapoint_value(&mut table, 2, Datatype::Bool(true)).unwrap();
    set_datapoint_value(&mut table, 2, Datatype::Bool(true)).unwrap();
    assert_eq!(table.len(), 1);
    assert_eq!(table.find(2).unwrap().value, Datatype::Bool(true));
}

#[test]
fn set_target_on_unknown_id_fails() {
    let mut table = DatapointTable::new();
    let r = set_datapoint_target_value(&mut table, 9, Datatype::I64(1));
    assert_eq!(
        r,
        Err(String::from(
            "Cannot set the desired value of an unknown datapoint!"
        ))
    );
    assert_eq!(table.len(), 0);
    assert!(table.find(9).is_none());
}

#[test]
fn set_target_updates_only_the_target() {
    let mut table = DatapointTable::new();
    set_datapoint_value(&mut table, 4, Datatype::String(String::from("on"))).unwrap();
    set_datapoint_value(&mut table, 5, Datatype::U64(1)).unwrap();
    assert_eq!(
        set_datapoint_target_value(&mut table, 4, Datatype::String(String::from("off"))),
        Ok(())
    );
    let row = table.find(4).unwrap();
    assert_eq!(row.value, Datatype::String(String::from("on")));
    assert_eq!(row.target_value, Some(Datatype::String(String::from("off"))));
    let other = table.find(5).unwrap();
    assert_eq!(other.value, Datatype::U64(1));
    assert_eq!(other.target_value, None);
}
