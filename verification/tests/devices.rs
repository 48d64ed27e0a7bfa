use webls::icons::{icon_by_number, IconName, Icons, ICONS_SIZE};
use webls::lsblk::{BlockDevice, Lsblk, Partition, SizeReading};
use webls::unit::{Unit, UnitKind};

fn part(name: &str, size: &str, mounts: &[Option<&str>]) -> Partition {
    Partition {
        name: name.to_string(),
        size: size.to_string(),
        mountpoints: mounts.iter().map(|m| m.map(|s| s.to_string())).collect(),
    }
}

#[test]
fn system_partitions_are_not_free() {
    assert!(!part("sda1", "50G", &[Some("/")]).is_system_free());
    assert!(!part("sda2", "50G", &[None, Some("/home")]).is_system_free());
    assert!(!part("sda3", "1G", &[Some("/boot")]).is_system_free());
    assert!(part("sdb1", "1T", &[Some("/mnt/data")]).is_system_free());
    assert!(part("sdb2", "1T", &[None]).is_system_free());
    assert!(part("sdb3", "1T", &[Some("/home/x")]).is_system_free());
}

#[test]
fn mounted_and_device_paths() {
    assert!(part("sda1", "5G", &[Some("/x")]).is_mounted());
    assert!(!part("sda1", "5G", &[None, None]).is_mounted());
    assert!(!part("sda1", "5G", &[]).is_mounted());
    assert_eq!(part("nvme0n1p3", "5G", &[]).dev_path(), "/dev/nvme0n1p3");
}

#[test]
fn size_readings() {
    assert!(matches!(part("a", "1.8T", &[]).size_reading(), SizeReading::Tera(n) if n == "1.8"));
    assert!(matches!(part("a", "931.5G", &[]).size_reading(), SizeReading::Giga(n) if n == "931.5"));
    assert!(matches!(part("a", "512M", &[]).size_reading(), SizeReading::Unknown));
    assert!(matches!(part("a", "", &[]).size_reading(), SizeReading::Unknown));
}

#[test]
fn offered_partitions_are_big_and_system_free() {
    let l = Lsblk {
        blockdevices: vec![
            BlockDevice { children: vec![part("sda1", "1G", &[Some("/boot")]), part("sda2", "100G", &[Some("/")])] },
            BlockDevice { children: vec![part("sdb1", "2T", &[None]), part("sdb2", "3G", &[None])] },
        ],
    };
    assert_eq!(l.sizes(), vec!["1G", "100G", "2T", "3G"]);
    let verdicts = vec![false, true, true, false];
    let offered = l.partitions(&verdicts);
    let names: Vec<String> = offered.iter().map(|p| p.name.clone()).collect();
    assert_eq!(names, vec!["sdb1"]);
}

fn icons() -> Icons {
    Icons::new((0..ICONS_SIZE).map(|i| vec![i as u8; i + 1]).collect()).unwrap()
}

#[test]
fn icons_by_name_and_number() {
    let t = icons();
    assert_eq!(IconName::Folder.get(&t), &[0u8][..]);
    assert_eq!(IconName::Retry.get(&t), &[13u8; 14][..]);
    assert_eq!(IconName::Download.index(), 8);
    assert_eq!(IconName::from_index(8), IconName::Download);
    assert_eq!(u8::from(IconName::Home), 9);
    assert_eq!(IconName::from(UnitKind::Dirctory), IconName::Folder);
    for i in 0..ICONS_SIZE as u8 {
        assert_eq!(IconName::from_index(i).index(), i);
    }
    assert_eq!(icon_by_number(3, &t), Some(&[3u8; 4][..]));
    assert_eq!(icon_by_number(14, &t), None);
    assert!(Icons::new(vec![vec![1u8]]).is_none());
}

#[test]
fn unit_icons_follow_kinds() {
    let t = icons();
    let v = Unit { path: "a.mkv".to_string(), kind: UnitKind::Video };
    assert_eq!(v.icon(&t), IconName::Video.get(&t));
    let f = Unit { path: "a".to_string(), kind: UnitKind::Dirctory };
    assert_eq!(f.icon(&t), IconName::Folder.get(&t));
}
