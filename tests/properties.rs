use rtps::entity_id::EntityId_t;
use rtps::ip_check::{isIPv4, isIPv6, IPv6isCorrect};
use rtps::ip_locator::{toIPv4string, toIPv6string};
use rtps::locator::{LOCATOR_KIND_INVALID, LOCATOR_KIND_SHM, LOCATOR_KIND_TCPv4, LOCATOR_KIND_UDPv6};
use rtps::locator_text::split_locator;
use rtps::sequence_number::SequenceNumberDiff;
use rtps::{BitmapRange, GUID_t, Locator_t, RtpsError, SequenceNumber_t};

fn snapshot(uut: &BitmapRange) -> (u32, [u32; 8], u32) {
    let mut num_bits: u32 = 0;
    let mut bitmap = [0u32; 8];
    let mut num_longs: u32 = 0;
    uut.bitmap_get(&mut num_bits, &mut bitmap, &mut num_longs);
    (num_bits, bitmap, num_longs)
}

#[test]
fn add_then_is_set_in_window() {
    let base = 1000u32;
    for offset in 0..256u32 {
        let mut uut = BitmapRange::new_from_base(base);
        assert!(uut.add(&(base + offset)));
        assert!(uut.is_set(&(base + offset)));
        assert!(!uut.is_set(&(base + offset + 1)) || offset == 255);
    }
}

#[test]
fn add_outside_window_changes_nothing() {
    let mut uut = BitmapRange::new_from_base(1000);
    uut.add(&1010);
    let before = snapshot(&uut);
    assert!(!uut.add(&999));
    assert!(!uut.add(&1256));
    assert!(!uut.add(&0));
    assert_eq!(snapshot(&uut), before);
    assert!(!uut.is_set(&999));
    assert!(!uut.is_set(&1256));
}

#[test]
fn add_is_idempotent() {
    let mut once = BitmapRange::new_from_base(7);
    let mut twice = BitmapRange::new_from_base(7);
    once.add(&40);
    twice.add(&40);
    assert!(twice.add(&40));
    assert_eq!(snapshot(&once), snapshot(&twice));
}

#[test]
fn add_at_top_sets_max() {
    let mut uut = BitmapRange::new_from_base(50);
    uut.add(&60);
    assert_eq!(uut.max(), 60);
    uut.add(&200);
    assert_eq!(uut.max(), 200);
    uut.add(&100);
    assert_eq!(uut.max(), 200);
    assert_eq!(uut.min(), 60);
}

#[test]
fn get_then_set_round_trip() {
    let mut uut = BitmapRange::new_from_base(300);
    for item in [300u32, 301, 333, 364, 450, 555] {
        uut.add(&item);
    }
    let (num_bits, bitmap, _) = snapshot(&uut);
    let before = snapshot(&uut);
    let max_before = uut.max();
    uut.bitmap_set(num_bits, &bitmap);
    assert_eq!(snapshot(&uut), before);
    assert_eq!(uut.max(), max_before);
    assert_eq!(uut.items(), vec![300, 301, 333, 364, 450, 555]);
}

#[test]
fn round_trip_at_word_boundary_keeps_last_word() {
    let mut uut = BitmapRange::new();
    uut.add(&31);
    uut.add(&255);
    let (num_bits, bitmap, _) = snapshot(&uut);
    assert_eq!(num_bits, 256);
    uut.bitmap_set(num_bits, &bitmap);
    assert_eq!(uut.max(), 255);
    assert!(uut.is_set(&255));
    assert!(uut.is_set(&31));
}

#[test]
fn bitmap_set_of_full_word() {
    let mut uut = BitmapRange::new();
    let mut bitmap = [0u32; 8];
    bitmap[0] = u32::MAX;
    bitmap[1] = u32::MAX;
    uut.bitmap_set(32, &bitmap);
    let (num_bits, got, num_longs) = snapshot(&uut);
    assert_eq!(num_bits, 32);
    assert_eq!(num_longs, 1);
    assert_eq!(got[0], u32::MAX);
    assert_eq!(got[1], 0);
}

#[test]
fn bitmap_set_clamps_and_finds_highest() {
    let mut uut = BitmapRange::new();
    let mut bitmap = [0u32; 8];
    bitmap[2] = 0x0001_0000;
    uut.bitmap_set(1000, &bitmap);
    let (num_bits, _, num_longs) = snapshot(&uut);
    assert_eq!(num_bits, 80);
    assert_eq!(num_longs, 3);
    uut.bitmap_set(0, &bitmap);
    assert!(uut.empty());
}

#[test]
fn scenario_serialization_twenty_bits() {
    let mut uut = BitmapRange::new();
    let bitmap = [0xFFFF_FFFFu32, 0, 0, 0, 0, 0, 0, 0];
    uut.bitmap_set(20, &bitmap);
    let (num_bits, got, num_longs) = snapshot(&uut);
    assert_eq!(num_bits, 20);
    assert_eq!(num_longs, 1);
    assert_eq!(got[0], 0xFFFFF000);
}

#[test]
fn add_range_is_adds_of_clamped_range() {
    let base = 123u32;
    let mut ranged = BitmapRange::new_from_base(base);
    let mut added = BitmapRange::new_from_base(base);
    ranged.add_range(&100, &(base + 70));
    for item in base..base + 70 {
        added.add(&item);
    }
    assert_eq!(snapshot(&ranged), snapshot(&added));
    ranged.add_range(&(base + 250), &(base + 600));
    for item in base + 250..base + 256 {
        added.add(&item);
    }
    assert_eq!(snapshot(&ranged), snapshot(&added));
    ranged.add_range(&(base + 90), &(base + 80));
    assert_eq!(snapshot(&ranged), snapshot(&added));
}

#[test]
fn scenario_full_window_range() {
    let mut uut = BitmapRange::new_from_base(123);
    uut.add_range(&123, &(123 + 512));
    let (num_bits, bitmap, num_longs) = snapshot(&uut);
    assert_eq!(num_bits, 256);
    assert_eq!(num_longs, 8);
    assert_eq!(bitmap, [0xFFFF_FFFFu32; 8]);
}

#[test]
fn add_range_at_top_of_u32() {
    let base = u32::MAX - 255;
    let mut uut = BitmapRange::new_from_base(base);
    uut.add_range(&base, &u32::MAX);
    assert_eq!(uut.max(), u32::MAX - 1);
    assert!(uut.add(&u32::MAX));
    assert_eq!(uut.max(), u32::MAX);
    assert_eq!(uut.items().len(), 256);
}

#[test]
fn remove_max_falls_to_next_highest() {
    let mut uut = BitmapRange::new_from_base(10);
    uut.add(&12);
    uut.add(&100);
    uut.add(&200);
    uut.remove(&200);
    assert!(!uut.is_set(&200));
    assert_eq!(uut.max(), 100);
    uut.remove(&50);
    assert_eq!(uut.max(), 100);
    uut.remove(&100);
    assert_eq!(uut.max(), 12);
    uut.remove(&12);
    assert!(uut.empty());
}

#[test]
fn remove_on_empty_range_is_noop() {
    let mut uut = BitmapRange::new();
    uut.remove(&300);
    uut.remove(&0);
    assert!(uut.empty());
    assert_eq!(snapshot(&uut), (0, [0u32; 8], 0));
}

#[test]
fn for_each_visits_ascending_once() {
    let mut uut = BitmapRange::new_from_base(64);
    for item in [319u32, 64, 95, 96, 127, 200] {
        uut.add(&item);
    }
    let mut seen: Vec<u32> = Vec::new();
    uut.for_each(|t: u32| seen.push(t));
    assert_eq!(seen, vec![64, 95, 96, 127, 200, 319]);
    for item in 0..400u32 {
        assert_eq!(uut.is_set(&item), seen.contains(&item));
    }
}

#[test]
fn sliding_window_keeps_single_base_item() {
    let base = 700u32;
    for k in 0..256u32 {
        let mut uut = BitmapRange::new_from_base(base);
        uut.add(&base);
        uut.base_update(base - k);
        assert_eq!(uut.max(), base);
        uut.base_update(base);
        assert_eq!(uut.max(), base);
        assert_eq!(uut.items(), vec![base]);
    }
}

#[test]
fn base_update_far_away_clears() {
    let mut uut = BitmapRange::new_from_base(1000);
    uut.add(&1000);
    uut.add(&1255);
    uut.base_update(1256);
    assert!(uut.empty());
    let mut other = BitmapRange::new_from_base(1000);
    other.add(&1000);
    other.base_update(744);
    assert!(other.empty());
    assert_eq!(other.base(), 744);
}

#[test]
fn base_update_on_empty_range_stays_empty() {
    let mut uut = BitmapRange::new_from_base(500);
    uut.base_update(400);
    assert!(uut.empty());
    assert_eq!(uut.items(), Vec::<u32>::new());
}

#[test]
fn base_update_moves_words_both_ways() {
    let mut uut = BitmapRange::new_from_base(1000);
    for item in [1000u32, 1031, 1032, 1100, 1255] {
        uut.add(&item);
    }
    uut.base_update(1032);
    assert_eq!(uut.items(), vec![1032, 1100, 1255]);
    uut.base_update(968);
    assert_eq!(uut.items(), vec![1032, 1100]);
    assert_eq!(uut.max(), 1100);
    uut.base_update(1013);
    assert_eq!(uut.items(), vec![1032, 1100]);
    assert_eq!(uut.min(), 1032);
}

#[test]
fn scenario_add_base_then_sixteen() {
    let mut uut = BitmapRange::new();
    uut.add(&0);
    let (num_bits, bitmap, _) = snapshot(&uut);
    assert_eq!(bitmap[0], 0x80000000);
    assert_eq!(num_bits, 1);
    assert_eq!(uut.max(), 0);
    uut.add(&16);
    let (num_bits, bitmap, _) = snapshot(&uut);
    assert_eq!(bitmap[0], 0x80008000);
    assert_eq!(num_bits, 17);
    assert_eq!(uut.max(), 16);
}

#[test]
fn scenario_sequence_carry() {
    assert_eq!(SequenceNumber_t::new(0, 4294967295) + 1, SequenceNumber_t::new(1, 0));
}

#[test]
fn scenario_sequence_borrow() {
    assert_eq!(
        SequenceNumber_t::new(4, 3) - SequenceNumber_t::new(0, 7),
        SequenceNumber_t::new(3, 4294967292)
    );
}

#[test]
fn sequence_number_conversions() {
    assert_eq!(SequenceNumber_t::new(1, 5).to64long(), 0x1_0000_0005);
    assert_eq!(SequenceNumber_t::new(0, 7).to64long(), 7);
    assert_eq!(SequenceNumber_t::unknown().to64long(), 0xFFFF_FFFF_0000_0000);
    assert_eq!(SequenceNumber_t::from(0x2_0000_0009u64), SequenceNumber_t::new(2, 9));
    assert!(SequenceNumber_t::unknown() < SequenceNumber_t::new(0, 0));
    assert!(SequenceNumber_t::sort_seqNum(SequenceNumber_t::unknown(), SequenceNumber_t::new(0, 0)));
    assert_eq!(
        SequenceNumberDiff::diff(SequenceNumber_t::new(1, 10), SequenceNumber_t::new(0, 4294967290)),
        16
    );
    let mut s = SequenceNumber_t::new(2, u32::MAX);
    assert_eq!(s.incrememt(), SequenceNumber_t::new(3, 0));
    assert_eq!(s, SequenceNumber_t::new(3, 0));
    assert_eq!(
        SequenceNumber_t::new(1, u32::MAX) + SequenceNumber_t::new(2, 1),
        SequenceNumber_t::new(4, 0)
    );
}

#[test]
fn entity_id_bytes() {
    let id = EntityId_t::new(0x0102_03C4);
    assert_eq!(id.value, [0x01, 0x02, 0x03, 0xC4]);
    assert_eq!(EntityId_t::hash(&id), 0x010203);
    let mut v = [1u8, 2, 3, 4];
    EntityId_t::reverse(&mut v);
    assert_eq!(v, [4, 3, 2, 1]);
    assert!(id == 0x0102_03C4u32);
    assert!(id != 0x0102_03C5u32);
}

#[test]
fn guid_builtin_edges() {
    let mut guid = GUID_t::unknown();
    guid.entityId.value[3] = 0xff;
    assert!(guid.is_builtin());
    guid.entityId.value[3] = 0x00;
    assert!(!guid.is_builtin());
}

#[test]
fn ipv4_text() {
    let mut locator = Locator_t::new_from_port(7);
    locator.address[12] = 192;
    locator.address[13] = 168;
    locator.address[14] = 0;
    locator.address[15] = 10;
    assert_eq!(toIPv4string(&locator), "192.168.0.10");
    assert_eq!(locator.to_string(), "UDPv4:[192.168.0.10]:7");
}

fn v6(groups: [u16; 8]) -> Locator_t {
    let mut address = [0u8; 16];
    for (k, g) in groups.iter().enumerate() {
        address[2 * k] = (g >> 8) as u8;
        address[2 * k + 1] = (g & 0xff) as u8;
    }
    Locator_t::new(LOCATOR_KIND_UDPv6, 1, address)
}

#[test]
fn ipv6_text_compression() {
    assert_eq!(toIPv6string(&v6([0, 0, 0, 0, 0, 0, 0, 1])), "::1");
    assert_eq!(toIPv6string(&v6([0x2001, 0xdb8, 0, 0, 0, 0, 0, 1])), "2001:db8::1");
    assert_eq!(toIPv6string(&v6([0x2001, 0xdb8, 0, 1, 0, 0, 0, 1])), "2001:db8:0:1::1");
    assert_eq!(toIPv6string(&v6([1, 0, 0, 2, 0, 0, 3, 4])), "1::2:0:0:3:4");
    assert_eq!(toIPv6string(&v6([1, 0, 0, 0, 0, 0, 0, 0])), "1::");
    assert_eq!(toIPv6string(&v6([0; 8])), "::");
    assert_eq!(toIPv6string(&v6([0xABCD, 0, 2, 3, 4, 5, 6, 7])), "abcd:0:2:3:4:5:6:7");
    assert_eq!(v6([0xfe80, 0, 0, 0, 0, 0, 0, 0x1c]).to_string(), "UDPv6:[fe80::1c]:1");
}

#[test]
fn shm_locator_text() {
    let mut locator = Locator_t::new_from_kind_port(LOCATOR_KIND_SHM, 3);
    locator.address[0] = b'M';
    assert_eq!(locator.to_string(), "SHM:[M]:3");
    let other = Locator_t::new(LOCATOR_KIND_INVALID, 9, [0u8; 16]);
    assert_eq!(other.to_string(), "Invalid_locator:[_]:0");
}

#[test]
fn IPv6isCorrect_test() {
    assert_eq!(true, IPv6isCorrect("fe80::92f0:f536:e3cc:11c6"));
    assert_eq!(true, IPv6isCorrect("2001:db8:3333:4444:5555:6666:7777:8888"));
    assert_eq!(true, IPv6isCorrect("2001:db8:3333:4444:CCCC:DDDD:EEEE:FFFF"));
    assert_eq!(true, IPv6isCorrect("::"));
    assert_eq!(true, IPv6isCorrect("2001:db8::"));
    assert_eq!(true, IPv6isCorrect("::1234:5678"));
    assert_eq!(true, IPv6isCorrect("2001:db8::1234:5678"));
    assert_eq!(true, IPv6isCorrect("2001:0db8:0001:0000:0000:0ab9:C0A8:0102"));
    assert_eq!(false, IPv6isCorrect("fe80:"));
}

#[test]
fn ipv6_shape_rejections() {
    assert!(isIPv6("fe80::1%eth0"));
    assert!(!isIPv6("fe80::1::2"));
    assert!(!isIPv6(":1:2:3"));
    assert!(!isIPv6("1:2:3:"));
    assert!(!isIPv6("12345::1"));
    assert!(!isIPv6("1:2:3:4:5:6:7:8:9"));
    assert!(!isIPv6("g::1"));
    assert!(!isIPv6("localhost"));
}

#[test]
fn ipv4_recognition() {
    assert!(isIPv4("127.0.0.1"));
    assert!(isIPv4("255.255.255.255"));
    assert!(!isIPv4("256.0.0.1"));
    assert!(!isIPv4("1.2.3"));
    assert!(!isIPv4("localhost"));
}

#[test]
fn split_locator_parts() {
    let parts = split_locator("TCPv4:[127.0.0.1]:2").ok().unwrap();
    assert_eq!(parts.kind, LOCATOR_KIND_TCPv4);
    assert_eq!(parts.address, "127.0.0.1");
    assert_eq!(parts.port, Some("2".to_string()));
    let parts = split_locator("Invalid_locator:[_]:0").ok().unwrap();
    assert_eq!(parts.kind, LOCATOR_KIND_INVALID);
    assert_eq!(parts.address, "_");
    let parts = split_locator("SHM:[M]").ok().unwrap();
    assert_eq!(parts.kind, LOCATOR_KIND_SHM);
    assert_eq!(parts.port, None);
    let e = split_locator("UDPv4").err().unwrap();
    assert_eq!(e.description(), "Parse kind");
    let e = split_locator("UDPv4:[1.2.3.4").err().unwrap();
    assert_eq!(e.description(), "Get address");
}

#[test]
fn error_message() {
    assert_eq!(RtpsError::new("Create locator").description(), "Create locator");
}
