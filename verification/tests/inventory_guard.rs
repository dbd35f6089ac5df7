use appmanager::inventory_guard::{validate_destructive_inventory, InventoryFacts, InventoryPort};
use appmanager::launcher::ServiceAction;

fn action(kind: &str, argument: &str) -> ServiceAction {
    ServiceAction { kind: kind.to_owned(), argument: argument.to_owned() }
}

fn port(path: &str, data: &str, images: &[&str]) -> InventoryPort {
    InventoryPort {
        path: path.to_owned(),
        data_path: data.to_owned(),
        images: images.iter().map(|s| (*s).to_owned()).collect(),
    }
}

fn inventory() -> InventoryFacts {
    InventoryFacts {
        data_dirs: vec!["/roms/ports/game".to_owned(), "/roms/ports/left".to_owned()],
        ports: vec![
            port("/roms/ports/Game.sh", "/roms/ports/game", &["/roms/ports/Imgs/Game.png"]),
            port("/roms/ports/Game2.sh", "/roms/ports/game", &["/roms/ports/Imgs/Shared.png"]),
            port("/roms/ports/Other.sh", "/roms/ports/other", &["/roms/ports/Imgs/Shared.png"]),
        ],
        data_refcount: vec![("/roms/ports/game".to_owned(), 2), ("/roms/ports/left".to_owned(), 0)],
        orphan_dirs: vec!["/roms/ports/left".to_owned()],
        images: vec![
            "/roms/ports/Imgs/Game.png".to_owned(),
            "/roms/ports/Imgs/Shared.png".to_owned(),
            "/roms/ports/Imgs/Lost.png".to_owned(),
        ],
        orphan_images: vec![],
    }
}

#[test]
fn removing_a_data_folder_that_a_kept_port_uses_is_refused() {
    let actions = vec![action("TRASH", "/roms/ports/Game.sh"), action("TRASH", "/roms/ports/game")];
    assert_eq!(
        validate_destructive_inventory(&inventory(), &actions),
        Err("selection changed; rescan before removing /roms/ports/game".to_owned())
    );
}

#[test]
fn removing_a_data_folder_with_all_its_ports_is_allowed() {
    let actions = vec![
        action("TRASH", "/roms/ports/Game.sh"),
        action("DELETE_MANAGED", "/roms/ports/Game2.sh"),
        action("TRASH", "/roms/ports/game/"),
    ];
    assert_eq!(validate_destructive_inventory(&inventory(), &actions), Ok(()));
}

#[test]
fn an_unused_folder_must_still_be_listed_as_unused() {
    let mut inv = inventory();
    assert_eq!(validate_destructive_inventory(&inv, &vec![action("TRASH", "/roms/ports/left")]), Ok(()));
    inv.orphan_dirs.clear();
    assert_eq!(
        validate_destructive_inventory(&inv, &vec![action("TRASH", "/roms/ports/left")]),
        Err("selection changed; rescan before removing /roms/ports/left".to_owned())
    );
}

#[test]
fn a_shared_image_stays_while_a_kept_port_uses_it() {
    let inv = inventory();
    let actions = vec![action("TRASH", "/roms/ports/Game2.sh"), action("TRASH", "/roms/ports/Imgs/Shared.png")];
    assert_eq!(
        validate_destructive_inventory(&inv, &actions),
        Err("selection changed; rescan before removing /roms/ports/Imgs/Shared.png".to_owned())
    );
    let both = vec![
        action("TRASH", "/roms/ports/Game2.sh"),
        action("TRASH", "/roms/ports/Other.sh"),
        action("TRASH", "/roms/ports/Imgs/Shared.png"),
    ];
    assert_eq!(validate_destructive_inventory(&inv, &both), Ok(()));
}

#[test]
fn an_image_no_port_uses_must_be_listed_as_unused() {
    let mut inv = inventory();
    let actions = vec![action("DELETE_MANAGED", "/roms/ports/Imgs/Lost.png")];
    assert!(validate_destructive_inventory(&inv, &actions).is_err());
    inv.orphan_images.push("/roms/ports/Imgs/Lost.png".to_owned());
    assert_eq!(validate_destructive_inventory(&inv, &actions), Ok(()));
}

#[test]
fn non_destructive_actions_are_not_checked() {
    let actions = vec![action("RESTORE_ITEM", "/roms/ports/game")];
    assert_eq!(validate_destructive_inventory(&inventory(), &actions), Ok(()));
}

fn shared_port(name: &str) -> InventoryPort {
    port(&format!("/ports/{name}.sh"), "/ports/data/shared", &[])
}

#[test]
fn destructive_data_removal_rejects_a_new_unselected_reference() {
    let data = "/ports/data/shared";
    let mut inventory = InventoryFacts {
        data_dirs: vec![data.to_owned()],
        ports: vec![shared_port("A"), shared_port("B"), shared_port("C")],
        data_refcount: vec![(data.to_owned(), 3)],
        orphan_dirs: Vec::new(),
        images: Vec::new(),
        orphan_images: Vec::new(),
    };
    let actions = vec![action("TRASH", "/ports/A.sh"), action("TRASH", "/ports/B.sh"), action("TRASH", data)];
    assert!(validate_destructive_inventory(&inventory, &actions).is_err());
    inventory.ports.pop();
    inventory.data_refcount = vec![(data.to_owned(), 2)];
    validate_destructive_inventory(&inventory, &actions).unwrap();
}

#[test]
fn destructive_orphan_validation_matches_the_exact_inventory_path_not_its_name() {
    let selected = "/ports/data/shared";
    let mut inventory = InventoryFacts {
        data_dirs: vec![selected.to_owned()],
        ports: Vec::new(),
        data_refcount: Vec::new(),
        orphan_dirs: vec!["/another-root/shared".to_owned()],
        images: Vec::new(),
        orphan_images: Vec::new(),
    };
    let actions = vec![action("TRASH", selected)];
    assert!(validate_destructive_inventory(&inventory, &actions).is_err());
    inventory.orphan_dirs[0] = selected.to_owned();
    validate_destructive_inventory(&inventory, &actions).unwrap();
}
