use hartex::entity::{mismatched_type_message, Entity, Plugins};

struct Cached(u64);

impl Entity for Cached {
    type Id = u64;

    fn id(&self) -> u64 {
        self.0
    }
}

#[test]
fn entities_have_ids() {
    assert_eq!(Cached(5).id(), 5);
}

#[test]
fn plugins_configuration() {
    let p: Plugins<u8, u16, u32> = Plugins::from_table_entries(Some(1), None, Some(3));
    assert_eq!(p.management, Some(1));
    assert_eq!(p.modlog, None);
    assert_eq!(p.utilities, Some(3));
    assert_eq!(mismatched_type_message("string"), "Dashboard: mismatched value type, expected table, found: string");
}
