use ares::grid::coords::Coords;
use ares::robot::modules::collector::CollectorModule;
use ares::robot::modules::drivesystem::DriveSystemModule;
use ares::robot::modules::exfilbeacon::ExfilBeaconModule;
use ares::robot::modules::hull::HullModule;
use ares::robot::modules::memory::MemoryModule;
use ares::robot::modules::power::PowerModule;
use ares::robot::modules::scanner::ScannerModule;
use ares::robot::modules::weapon::WeaponModule;

#[test]
fn collector_table() {
    assert_eq!(CollectorModule::get_power_usage("basic"), 500);
    assert_eq!(CollectorModule::get_power_usage("foxterra"), 1000);
    assert_eq!(CollectorModule::get_power_usage("ultratech"), 1500);
    assert_eq!(CollectorModule::get_power_usage("other"), 500);
    assert_eq!(CollectorModule::get_collection_rate("basic"), 10);
    assert_eq!(CollectorModule::get_collection_rate("foxterra"), 25);
    assert_eq!(CollectorModule::get_collection_rate("ultratech"), 50);
    assert_eq!(CollectorModule::get_collection_rate(""), 10);
    assert_eq!(CollectorModule::get_collection_max("basic"), 200);
    assert_eq!(CollectorModule::get_collection_max("foxterra"), 500);
    assert_eq!(CollectorModule::get_collection_max("ultratech"), 1000);
    assert_eq!(CollectorModule::get_collection_max("Basic"), 200);
}

#[test]
fn memory_table() {
    assert_eq!(MemoryModule::get_memory_size("basic"), 20);
    assert_eq!(MemoryModule::get_memory_size("plus"), 30);
    assert_eq!(MemoryModule::get_memory_size("ikito"), 40);
    assert_eq!(MemoryModule::get_memory_size("jindai"), 80);
    assert_eq!(MemoryModule::get_memory_size("none"), 20);
}

#[test]
fn power_table() {
    assert_eq!(PowerModule::get_max_power("basic"), 1000);
    assert_eq!(PowerModule::get_max_power("plus"), 1500);
    assert_eq!(PowerModule::get_max_power("foxline"), 3000);
    assert_eq!(PowerModule::get_max_power("x"), 1000);
    assert_eq!(PowerModule::get_recharge_rate("basic"), 150);
    assert_eq!(PowerModule::get_recharge_rate("plus"), 300);
    assert_eq!(PowerModule::get_recharge_rate("foxline"), 1000);
    assert_eq!(PowerModule::get_recharge_rate("x"), 150);
}

#[test]
fn scanner_table() {
    let names = [
        "basic",
        "plus",
        "triscan",
        "triscan_advanced",
        "triscan_ultra",
        "boxium_starter",
        "boxium_advanced",
        "boxium_ultra",
        "omni_basic",
        "omni_ultra",
        "unheard_of",
    ];
    let fov = [0, 0, 120, 120, 120, 240, 240, 240, 360, 360, 0];
    let range = [1, 2, 1, 2, 3, 1, 2, 3, 2, 4, 0];
    let power = [20, 30, 60, 80, 120, 250, 350, 1000, 500, 2000, 0];
    let accuracy = [100, 100, 75, 75, 50, 80, 80, 80, 0, 0, 0];
    for i in 0..names.len() {
        assert_eq!(ScannerModule::get_fov(names[i]), fov[i]);
        assert_eq!(ScannerModule::get_range(names[i]), range[i]);
        assert_eq!(ScannerModule::get_power_usage(names[i]), power[i]);
        assert_eq!(ScannerModule::get_accuracy(names[i]), accuracy[i]);
    }
}

#[test]
fn weapon_table() {
    let names = ["none", "blaster", "supreme_blaster", "basic"];
    let range = [0, 1, 2, 0];
    let max = [0, 250, 500, 0];
    let min = [0, 100, 250, 0];
    let power = [0, 500, 1000, 0];
    for i in 0..names.len() {
        assert_eq!(WeaponModule::get_range(names[i]), range[i]);
        assert_eq!(WeaponModule::get_fov(names[i]), 0);
        assert_eq!(WeaponModule::get_max_damage(names[i]), max[i]);
        assert_eq!(WeaponModule::get_min_damage(names[i]), min[i]);
        assert_eq!(WeaponModule::get_cool_down(names[i]), 0);
        assert_eq!(WeaponModule::get_power_usage(names[i]), power[i]);
    }
}

#[test]
fn other_tables() {
    assert_eq!(DriveSystemModule::get_steps("basic"), 1);
    assert_eq!(DriveSystemModule::get_power_usage("basic"), 10);
    assert_eq!(ExfilBeaconModule::get_delay("basic"), 10);
    assert_eq!(ExfilBeaconModule::get_power_usage("basic"), 0);
    assert_eq!(HullModule::get_max_strength("basic"), 1000);
}

#[test]
fn weapon_reach() {
    let here = Coords { q: 0, r: 0 };
    let next = Coords { q: 0, r: 1 };
    let two = Coords { q: 0, r: 2 };
    assert!(WeaponModule::in_range("blaster", &here, &next, Some(0)));
    assert!(!WeaponModule::in_range("blaster", &here, &two, Some(0)));
    assert!(WeaponModule::in_range("supreme_blaster", &here, &two, Some(0)));
    assert!(!WeaponModule::in_range("supreme_blaster", &here, &two, Some(60)));
    assert!(!WeaponModule::in_range("supreme_blaster", &here, &two, Some(-1)));
    assert!(!WeaponModule::in_range("supreme_blaster", &here, &two, None));
    assert!(!WeaponModule::in_range("none", &here, &next, Some(0)));
    assert!(WeaponModule::in_range("none", &here, &here, Some(0)));
}

#[test]
fn random_kinds_are_kinds() {
    for _ in 0..50 {
        let collector = CollectorModule::get_random();
        assert!(["basic", "foxterra", "ultratech"].contains(&collector.as_str()));
        let power = PowerModule::get_random();
        assert!(["basic", "plus", "foxline"].contains(&power.as_str()));
        let weapon = WeaponModule::get_random();
        assert!(["none", "blaster", "supreme_blaster"].contains(&weapon.as_str()));
        let scanner = ScannerModule::get_random();
        assert!([
            "basic",
            "plus",
            "triscan",
            "triscan_advanced",
            "triscan_ultra",
            "boxium_starter",
            "boxium_advanced",
            "boxium_ultra",
            "omni_basic",
            "omni_ultra"
        ]
        .contains(&scanner.as_str()));
    }
}

#[test]
fn random_kinds_vary() {
    let mut seen_other = false;
    for _ in 0..200 {
        if ScannerModule::get_random() != "basic" {
            seen_other = true;
        }
    }
    assert!(seen_other);
}
