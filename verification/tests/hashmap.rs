use miniature_os::hashmap::{Entry, FNV1aHasher, HashMap};

fn fnv1a(bytes: &[u8]) -> u64 {
    let mut hasher = FNV1aHasher::default();
    hasher.write(bytes);
    hasher.finish()
}

#[test]
fn test() {
    assert_eq!(fnv1a(b""), 0xcbf29ce484222325);
    assert_eq!(fnv1a(b"a"), 0xaf63dc4c8601ec8c);
    assert_eq!(fnv1a(b"b"), 0xaf63df4c8601f1a5);
    assert_eq!(fnv1a(b"c"), 0xaf63de4c8601eff2);
    assert_eq!(fnv1a(b"d"), 0xaf63d94c8601e773);
    assert_eq!(fnv1a(b"e"), 0xaf63d84c8601e5c0);
    assert_eq!(fnv1a(b"f"), 0xaf63db4c8601ead9);
    assert_eq!(fnv1a(b"fo"), 0x08985907b541d342);
    assert_eq!(fnv1a(b"foo"), 0xdcb27518fed9d577);
    assert_eq!(fnv1a(b"foob"), 0xdd120e790c2512af);
    assert_eq!(fnv1a(b"fooba"), 0xcac165afa2fef40a);
    assert_eq!(fnv1a(b"foobar"), 0x85944171f73967e8);
    assert_eq!(fnv1a(b"\0"), 0xaf63bd4c8601b7df);
    assert_eq!(fnv1a(b"\0"), 0xaf63bd4c8601b7df);
    assert_eq!(fnv1a(b"a\0"), 0x089be207b544f1e4);
    assert_eq!(fnv1a(b"b\0"), 0x08a61407b54d9b5f);
    assert_eq!(fnv1a(b"c\0"), 0x08a2ae07b54ab836);
    assert_eq!(fnv1a(b"d\0"), 0x0891b007b53c4869);
    assert_eq!(fnv1a(b"e\0"), 0x088e4a07b5396540);
    assert_eq!(fnv1a(b"f\0"), 0x08987c07b5420ebb);
    assert_eq!(fnv1a(b"fo\0"), 0xdcb28a18fed9f926);
    assert_eq!(fnv1a(b"foo\0"), 0xdd1270790c25b935);
    assert_eq!(fnv1a(b"foob\0"), 0xcac146afa2febf5d);
    assert_eq!(fnv1a(b"fooba\0"), 0x8593d371f738acfe);
    assert_eq!(fnv1a(b"foobar\0"), 0x34531ca7168b8f38);
    assert_eq!(fnv1a(b"ch"), 0x08a25607b54a22ae);
    assert_eq!(fnv1a(b"cho"), 0xf5faf0190cf90df3);
    assert_eq!(fnv1a(b"chon"), 0xf27397910b3221c7);
    assert_eq!(fnv1a(b"chong"), 0x2c8c2b76062f22e0);
    assert_eq!(fnv1a(b"chongo"), 0xe150688c8217b8fd);
    assert_eq!(fnv1a(b"chongo "), 0xf35a83c10e4f1f87);
    assert_eq!(fnv1a(b"chongo w"), 0xd1edd10b507344d0);
    assert_eq!(fnv1a(b"chongo wa"), 0x2a5ee739b3ddb8c3);
    assert_eq!(fnv1a(b"chongo was"), 0xdcfb970ca1c0d310);
    assert_eq!(fnv1a(b"chongo was "), 0x4054da76daa6da90);
    assert_eq!(fnv1a(b"chongo was h"), 0xf70a2ff589861368);
    assert_eq!(fnv1a(b"chongo was he"), 0x4c628b38aed25f17);
    assert_eq!(fnv1a(b"chongo was her"), 0x9dd1f6510f78189f);
    assert_eq!(fnv1a(b"chongo was here"), 0xa3de85bd491270ce);
    assert_eq!(fnv1a(b"chongo was here!"), 0x858e2fa32a55e61d);
    assert_eq!(fnv1a(b"chongo was here!\n"), 0x46810940eff5f915);
    assert_eq!(fnv1a(b"\xff\x00\x00\x03"), 0x6961176491cc64c7);
    assert_eq!(fnv1a(b"\x03\x00\x00\xff"), 0xed205d87f40434c7);
    assert_eq!(fnv1a(b"\xff\x00\x00\x04"), 0x6961146491cc5fae);
    assert_eq!(fnv1a(b"\x04\x00\x00\xff"), 0xcd3baf5e44f8ad9c);
    assert_eq!(fnv1a(b"\x40\x51\x4e\x44"), 0xe3b36596127cd6d8);
    assert_eq!(fnv1a(b"\x44\x4e\x51\x40"), 0xf77f1072c8e8a646);
    assert_eq!(fnv1a(b"\x40\x51\x4e\x4a"), 0xe3b36396127cd372);
    assert_eq!(fnv1a(b"\x4a\x4e\x51\x40"), 0x6067dce9932ad458);
    assert_eq!(fnv1a(b"\x40\x51\x4e\x54"), 0xe3b37596127cf208);
    assert_eq!(fnv1a(b"\x54\x4e\x51\x40"), 0x4b7b10fa9fe83936);
    assert_eq!(fnv1a(b"127.0.0.1"), 0xaabafe7104d914be);
    assert_eq!(fnv1a(b"127.0.0.1\0"), 0xf4d3180b3cde3eda);
    assert_eq!(fnv1a(b"127.0.0.2"), 0xaabafd7104d9130b);
    assert_eq!(fnv1a(b"127.0.0.2\0"), 0xf4cfb20b3cdb5bb1);
    assert_eq!(fnv1a(b"127.0.0.3"), 0xaabafc7104d91158);
    assert_eq!(fnv1a(b"127.0.0.3\0"), 0xf4cc4c0b3cd87888);
    assert_eq!(fnv1a(b"64.81.78.68"), 0xe729bac5d2a8d3a7);
    assert_eq!(fnv1a(b"64.81.78.68\0"), 0x74bc0524f4dfa4c5);
    assert_eq!(fnv1a(b"64.81.78.74"), 0xe72630c5d2a5b352);
    assert_eq!(fnv1a(b"64.81.78.74\0"), 0x6b983224ef8fb456);
    assert_eq!(fnv1a(b"64.81.78.84"), 0xe73042c5d2ae266d);
    assert_eq!(fnv1a(b"64.81.78.84\0"), 0x8527e324fdeb4b37);
    assert_eq!(fnv1a(b"feedface"), 0x0a83c86fee952abc);
    assert_eq!(fnv1a(b"feedface\0"), 0x7318523267779d74);
    assert_eq!(fnv1a(b"feedfacedaffdeed"), 0x3e66d3d56b8caca1);
    assert_eq!(fnv1a(b"feedfacedaffdeed\0"), 0x956694a5c0095593);
    assert_eq!(fnv1a(b"feedfacedeadbeef"), 0xcac54572bb1a6fc8);
    assert_eq!(fnv1a(b"feedfacedeadbeef\0"), 0xa7a4c9f3edebf0d8);
    assert_eq!(fnv1a(b"line 1\nline 2\nline 3"), 0x7829851fac17b143);
}

#[test]
fn insert() {
    let mut map = HashMap::new();
    assert_eq!(map.len(), 0);
    assert!(map.is_empty());
    map.insert("foo", 42);
    assert_eq!(map.len(), 1);
    assert!(!map.is_empty());
    assert_eq!(map.get(&"foo"), Some(&42));
    assert_eq!(map.remove(&"foo"), Some(42));
    assert_eq!(map.len(), 0);
    assert!(map.is_empty());
    assert_eq!(map.get(&"foo"), None);
}

#[test]
fn iter() {
    let mut map = HashMap::new();
    map.insert("foo", 42);
    map.insert("bar", 43);
    map.insert("baz", 142);
    map.insert("quox", 7);
    let mut it = map.iter();
    let mut count = 0;
    while let Some((&k, &v)) = it.next() {
        match k {
            "foo" => assert_eq!(v, 42),
            "bar" => assert_eq!(v, 43),
            "baz" => assert_eq!(v, 142),
            "quox" => assert_eq!(v, 7),
            _ => unreachable!(),
        }
        count += 1;
    }
    assert_eq!(count, 4);

    let mut items = 0;
    let mut it = map.into_iter();
    while let Some((k, v)) = it.next() {
        match k {
            "foo" => assert_eq!(v, 42),
            "bar" => assert_eq!(v, 43),
            "baz" => assert_eq!(v, 142),
            "quox" => assert_eq!(v, 7),
            _ => unreachable!(),
        }
        items += 1;
    }
    assert_eq!(items, 4);
}

#[test]
fn empty_hashmap() {
    let mut map = HashMap::<&str, &str>::new();
    assert_eq!(map.contains_key(&"key"), false);
    assert_eq!(map.get(&"key"), None);
    assert_eq!(map.remove(&"key"), None);
}

#[test]
fn key_collision() {
    let mut map = HashMap::new();
    map.insert(3, "foo");
    let val = map.insert(3, "bar");
    assert_eq!(val, Some("foo"))
}

#[test]
fn remove() {
    let mut map = HashMap::new();
    assert_eq!(map.is_empty(), true);

    map.insert("a", 1);
    map.insert("b", 2);
    map.insert("c", 3);
    map.insert("d", 4);

    assert_eq!(map.len(), 4);
    assert_eq!(map.remove(&"b"), Some(2));
    assert_eq!(map.remove(&"d"), Some(4));
    assert_eq!(map.len(), 2);
    assert_eq!(map.remove(&"d"), None);
    assert_eq!(map.len(), 2);
}

#[test]
fn hashmap_get_after_insert_and_overwrite() {
    let mut map = HashMap::new();
    assert_eq!(map.insert(7u64, "seven"), None);
    assert_eq!(map.insert(8u64, "eight"), None);
    assert_eq!(map.get(&7u64), Some(&"seven"));
    assert_eq!(map.insert(7u64, "SEVEN"), Some("seven"));
    assert_eq!(map.get(&7u64), Some(&"SEVEN"));
    assert_eq!(map.len(), 2);
    assert!(map.contains_key(&8u64));
    assert_eq!(map.remove(&8u64), Some("eight"));
    assert!(!map.contains_key(&8u64));
}

#[test]
fn get_mut() {
    let mut map = HashMap::new();
    map.insert(3, "foo");

    let val = map.get_mut(&3).unwrap();
    *val = "bar";

    assert_eq!(map.get(&3), Some(&"bar"));
}

#[test]
fn get_mut_of_missing_key_is_none() {
    let mut map: HashMap<i32, &str> = HashMap::new();
    assert!(map.get_mut(&3).is_none());
    map.insert(4, "four");
    assert!(map.get_mut(&3).is_none());
    assert_eq!(map.len(), 1);
}

#[test]
fn entry_of_a_new_key_is_vacant_and_takes_a_value() {
    let mut map = HashMap::new();
    match map.entry(3) {
        Entry::Vacant(e) => {
            let v = e.insert("foo");
            *v = "bar";
        }
        Entry::Occupied(_) => panic!("the map was empty"),
    }
    assert_eq!(map.get(&3), Some(&"bar"));
    assert_eq!(map.len(), 1);
    assert!(matches!(map.entry(3), Entry::Occupied(_)));
    assert!(matches!(map.entry(4), Entry::Vacant(_)));
    assert_eq!(map.len(), 1);
}
