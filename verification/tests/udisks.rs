use formatpen::services::udisks::file_name_of;
use formatpen::services::{combine_vendor_model, ManagedObject, UDisksService};
use formatpen::test_support::{BlockBuilder, DriveBuilder};

#[test]
fn fabricante_e_modelo_vazios_retorna_none() {
    assert_eq!(combine_vendor_model("", ""), None);
    assert_eq!(combine_vendor_model("  ", "  "), None);
}

#[test]
fn so_fabricante_ou_so_modelo() {
    assert_eq!(
        combine_vendor_model("Kingston", ""),
        Some("Kingston".to_string())
    );
    assert_eq!(
        combine_vendor_model("", "DataTraveler 3.0"),
        Some("DataTraveler 3.0".to_string())
    );
}

#[test]
fn nao_duplica_fabricante_no_modelo() {
    assert_eq!(
        combine_vendor_model("SanDisk", "SanDisk Ultra"),
        Some("SanDisk Ultra".to_string())
    );
}

#[test]
fn junta_fabricante_e_modelo() {
    assert_eq!(
        combine_vendor_model("Kingston", "DataTraveler 3.0"),
        Some("Kingston DataTraveler 3.0".to_string())
    );
}

#[test]
fn fabricante_e_modelo_com_espacos() {
    assert_eq!(
        combine_vendor_model("  Kingston ", " DataTraveler "),
        Some("Kingston DataTraveler".to_string())
    );
}

fn removable_disk_with_partition() -> Vec<ManagedObject> {
    let mut managed = Vec::new();
    DriveBuilder::removable("Kingston_xxx").insert_into(&mut managed, "Kingston_xxx");
    BlockBuilder::whole_disk("sde", "Kingston_xxx").insert_into(&mut managed, "sde");
    BlockBuilder::partition("sde1", "Kingston_xxx").insert_into(&mut managed, "sde1");
    managed
}

fn two_removable_disks() -> Vec<ManagedObject> {
    let mut managed = Vec::new();
    DriveBuilder::removable("A").insert_into(&mut managed, "DriveA");
    DriveBuilder::removable("B").insert_into(&mut managed, "DriveB");
    BlockBuilder::whole_disk("sdf", "DriveB").insert_into(&mut managed, "sdf");
    BlockBuilder::whole_disk("sde", "DriveA").insert_into(&mut managed, "sde");
    managed
}

fn single(builder: BlockBuilder, name: &str, drive: &str) -> Vec<ManagedObject> {
    let mut managed = Vec::new();
    DriveBuilder::removable(drive).insert_into(&mut managed, drive);
    builder.insert_into(&mut managed, name);
    managed
}

#[test]
fn lista_so_o_disco_inteiro() {
    let drives = UDisksService::drives_from_objects(&removable_disk_with_partition());
    assert_eq!(drives.len(), 1);
    let d = &drives[0];
    assert_eq!(d.path, "sde");
    assert_eq!(d.device_path, "/dev/sde");
    assert_eq!(d.size, 60_000_000_000);
    assert_eq!(d.model.as_deref(), Some("Kingston DataTraveler 3.0"));
    assert!(d.is_removable);
    assert_eq!(d.object_path, "/org/freedesktop/UDisks2/block_devices/sde");
    assert_eq!(d.drive_object_path, "/org/freedesktop/UDisks2/drives/Kingston_xxx");
    assert!(d.mount_points.is_empty());
}

#[test]
fn lista_ordenada_por_dispositivo() {
    let drives = UDisksService::drives_from_objects(&two_removable_disks());
    let names: Vec<&str> = drives.iter().map(|d| d.path.as_str()).collect();
    assert_eq!(names, vec!["sde", "sdf"]);
}

#[test]
fn descarta_sistema_ignorado_nao_particionavel_e_somente_leitura() {
    let cases = vec![
        single(BlockBuilder::whole_disk("sr0", "Sys").hint_system(true), "sr0", "Sys"),
        single(BlockBuilder::whole_disk("sdc", "Ign").hint_ignore(true), "sdc", "Ign"),
        single(BlockBuilder::whole_disk("sdd", "NP").hint_partitionable(false), "sdd", "NP"),
        single(BlockBuilder::whole_disk("sdb", "RO").read_only(true), "sdb", "RO"),
    ];
    for managed in cases {
        assert!(UDisksService::drives_from_objects(&managed).is_empty());
    }
}

#[test]
fn usa_device_sem_preferred_device() {
    let managed = single(
        BlockBuilder::whole_disk("sdz", "Dev").device_instead_of_preferred("/dev/sdz"),
        "sdz",
        "Dev",
    );
    let drives = UDisksService::drives_from_objects(&managed);
    assert_eq!(drives.len(), 1);
    assert_eq!(drives[0].device_path, "/dev/sdz");
    assert_eq!(drives[0].path, "sdz");
}

#[test]
fn disco_interno_nao_lista() {
    let mut managed = Vec::new();
    DriveBuilder::fixed("Internal_0").insert_into(&mut managed, "Internal_0");
    BlockBuilder::whole_disk("sda", "Internal_0").insert_into(&mut managed, "sda");
    assert!(UDisksService::drives_from_objects(&managed).is_empty());
}

#[test]
fn nome_de_arquivo_do_caminho() {
    assert_eq!(file_name_of("/dev/sdd").as_deref(), Some("sdd"));
    assert_eq!(file_name_of("/dev/sdd/").as_deref(), Some("sdd"));
    assert_eq!(file_name_of("/dev/sdd/.").as_deref(), Some("sdd"));
    assert_eq!(file_name_of("/dev/.."), None);
    assert_eq!(file_name_of("/"), None);
    assert_eq!(file_name_of(""), None);
    assert_eq!(file_name_of("."), None);
    assert_eq!(file_name_of("./a"), Some("a".to_string()));
    for p in ["/dev/sdd", "a/b/", "a/./", "/", "..", "x/.."] {
        let expected = std::path::Path::new(p).file_name().and_then(|n| n.to_str()).map(|s| s.to_string());
        assert_eq!(file_name_of(p), expected, "path {p}");
    }
}

#[test]
fn cada_disco_removivel_aparece_uma_vez() {
    let mut managed = Vec::new();
    DriveBuilder::removable("A").insert_into(&mut managed, "DriveA");
    DriveBuilder::removable("B").insert_into(&mut managed, "DriveB");
    DriveBuilder::fixed("Internal_0").insert_into(&mut managed, "Internal_0");
    BlockBuilder::whole_disk("sdf", "DriveB").insert_into(&mut managed, "sdf");
    BlockBuilder::partition("sdf1", "DriveB").insert_into(&mut managed, "sdf1");
    BlockBuilder::whole_disk("sde", "DriveA").insert_into(&mut managed, "sde");
    BlockBuilder::whole_disk("sda", "Internal_0").insert_into(&mut managed, "sda");
    let drives = UDisksService::drives_from_objects(&managed);
    let paths: Vec<&str> = drives.iter().map(|d| d.object_path.as_str()).collect();
    assert_eq!(
        paths,
        vec![
            "/org/freedesktop/UDisks2/block_devices/sde",
            "/org/freedesktop/UDisks2/block_devices/sdf",
        ]
    );
    for d in &drives {
        assert!(d.device_path.starts_with("/dev/"));
        assert!(d.object_path.contains("block_devices/"));
        assert!(d.is_removable);
    }
}
