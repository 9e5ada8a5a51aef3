use bare_metal::storage::{
    Entry, Storage, DELETED, ENTRY_SIZE, FLASH_SIZE, MAX_ENTRIES, MAX_KEY_LEN, MAX_VALUE_LEN, VALID,
};

fn listed(storage: &Storage) -> Vec<(Vec<u8>, Vec<u8>)> {
    let mut out = Vec::new();
    for (k, v) in storage.list().iter() {
        match (k, v) {
            (Some(k), Some(v)) => out.push((k.to_vec(), v.to_vec())),
            (None, None) => {}
            _ => panic!("half-listed slot"),
        }
    }
    out
}

fn pair(k: &str, v: &str) -> (Vec<u8>, Vec<u8>) {
    (k.as_bytes().to_vec(), v.as_bytes().to_vec())
}

#[test]
fn demo_flow_format_write_read_update_delete() {
    let mut storage = Storage::new();
    storage.format();
    assert_eq!(storage.set(b"ssid", b"MyWiFiNetwork"), Ok(()));
    assert_eq!(storage.set(b"password", b"secret123"), Ok(()));
    assert_eq!(storage.set(b"port", b"8080"), Ok(()));
    assert_eq!(storage.set(b"timeout", b"30"), Ok(()));

    assert_eq!(storage.get(b"ssid"), Some(&b"MyWiFiNetwork"[..]));
    assert_eq!(storage.get(b"password"), Some(&b"secret123"[..]));
    assert_eq!(storage.get(b"port"), Some(&b"8080"[..]));
    assert_eq!(
        listed(&storage),
        vec![
            pair("ssid", "MyWiFiNetwork"),
            pair("password", "secret123"),
            pair("port", "8080"),
            pair("timeout", "30"),
        ]
    );

    assert_eq!(storage.set(b"port", b"9000"), Ok(()));
    assert_eq!(storage.get(b"port"), Some(&b"9000"[..]));

    assert_eq!(storage.delete(b"timeout"), Ok(()));
    assert_eq!(
        listed(&storage),
        vec![
            pair("ssid", "MyWiFiNetwork"),
            pair("password", "secret123"),
            pair("port", "9000"),
        ]
    );
}

#[test]
fn fresh_and_formatted_store_is_empty() {
    let mut storage = Storage::new();
    assert_eq!(storage.get(b"ssid"), None);
    assert!(listed(&storage).is_empty());
    storage.set(b"a", b"1").unwrap();
    storage.format();
    assert_eq!(storage.get(b"a"), None);
    assert!(listed(&storage).is_empty());
    for i in 0..MAX_ENTRIES {
        let e = storage.read_entry(i).unwrap();
        assert_eq!(e.valid, VALID);
        assert_eq!(e.key_len, 0xFF);
    }
}

#[test]
fn too_long_key_or_value_is_refused() {
    let mut storage = Storage::new();
    let long_key = [b'k'; MAX_KEY_LEN + 1];
    let long_value = [b'v'; MAX_VALUE_LEN + 1];
    assert_eq!(storage.set(&long_key, b"x"), Err("Key or value too long"));
    assert_eq!(storage.set(b"x", &long_value), Err("Key or value too long"));
    assert_eq!(storage.get(b"x"), None);
    let max_key = [b'k'; MAX_KEY_LEN];
    let max_value = [b'v'; MAX_VALUE_LEN];
    assert_eq!(storage.set(&max_key, &max_value), Ok(()));
    assert_eq!(storage.get(&max_key), Some(&max_value[..]));
}

#[test]
fn full_store_refuses_new_keys_but_updates_old_ones() {
    let mut storage = Storage::new();
    for i in 0..MAX_ENTRIES {
        let key = format!("key{}", i);
        assert_eq!(storage.set(key.as_bytes(), b"v"), Ok(()));
    }
    assert_eq!(storage.set(b"one-more", b"v"), Err("Storage full"));
    assert_eq!(storage.get(b"one-more"), None);
    assert_eq!(storage.set(b"key7", b"updated"), Ok(()));
    assert_eq!(storage.get(b"key7"), Some(&b"updated"[..]));
    // Deleting frees a slot, which the next new key takes.
    assert_eq!(storage.delete(b"key3"), Ok(()));
    assert_eq!(storage.set(b"one-more", b"w"), Ok(()));
    let list = storage.list();
    assert_eq!(list[3].0, Some(&b"one-more"[..]));
    assert_eq!(list[3].1, Some(&b"w"[..]));
}

#[test]
fn delete_of_missing_key_fails() {
    let mut storage = Storage::new();
    assert_eq!(storage.delete(b"nothing"), Err("Key not found"));
    storage.set(b"a", b"1").unwrap();
    assert_eq!(storage.delete(b"a"), Ok(()));
    assert_eq!(storage.delete(b"a"), Err("Key not found"));
    assert_eq!(storage.get(b"a"), None);
}

#[test]
fn deleted_record_keeps_its_bytes_but_not_its_flag() {
    let mut storage = Storage::new();
    storage.set(b"ab", b"xyz").unwrap();
    storage.delete(b"ab").unwrap();
    let e = storage.read_entry(0).unwrap();
    assert_eq!(e.valid, DELETED);
    assert_eq!(e.key_len, 2);
    assert_eq!(&e.key[..2], b"ab");
    assert_eq!(e.value_len, 3);
    assert_eq!(&e.value[..3], b"xyz");
}

#[test]
fn record_layout() {
    let mut storage = Storage::new();
    storage.set(b"k", b"v").unwrap();
    storage.set(b"key2", b"value2").unwrap();
    let e = storage.read_entry(1).unwrap();
    assert_eq!(&e.key[..4], b"key2");
    assert_eq!(&e.key[4..], &[0u8; MAX_KEY_LEN - 4][..]);
    assert_eq!(e.key_len, 4);
    assert_eq!(&e.value[..6], b"value2");
    assert_eq!(&e.value[6..], &[0u8; MAX_VALUE_LEN - 6][..]);
    assert_eq!(e.value_len, 6);
    assert_eq!(e.valid, VALID);
    assert_eq!(ENTRY_SIZE, MAX_KEY_LEN + 1 + MAX_VALUE_LEN + 1 + 1);
    assert!(ENTRY_SIZE * MAX_ENTRIES <= FLASH_SIZE);
}

#[test]
fn read_entry_out_of_range() {
    let storage = Storage::new();
    assert!(matches!(storage.read_entry(MAX_ENTRIES), Err("Index out of bounds")));
    assert!(storage.read_entry(MAX_ENTRIES - 1).is_ok());
}

#[test]
fn entry_new_is_zeroed_and_deleted() {
    let e = Entry::new();
    assert_eq!(e.key, [0u8; MAX_KEY_LEN]);
    assert_eq!(e.key_len, 0);
    assert_eq!(e.value, [0u8; MAX_VALUE_LEN]);
    assert_eq!(e.value_len, 0);
    assert_eq!(e.valid, DELETED);
}

#[test]
fn keys_are_exact_and_case_sensitive() {
    let mut storage = Storage::new();
    storage.set(b"Port", b"1").unwrap();
    assert_eq!(storage.get(b"port"), None);
    assert_eq!(storage.get(b"Por"), None);
    assert_eq!(storage.get(b"Port "), None);
    assert_eq!(storage.get(b"Port"), Some(&b"1"[..]));
    // Keys of any length are looked up without harm.
    assert_eq!(storage.get(&[0xFFu8; 255]), None);
    assert_eq!(storage.get(&[b'a'; 260]), None);
    assert_eq!(storage.get(b""), None);
}

#[test]
fn empty_key_and_value_are_stored() {
    let mut storage = Storage::new();
    assert_eq!(storage.set(b"", b""), Ok(()));
    assert_eq!(storage.get(b""), Some(&b""[..]));
    assert_eq!(listed(&storage), vec![pair("", "")]);
}

#[test]
fn law_get_after_set_leaves_others() {
    let mut storage = Storage::new();
    storage.set(b"a", b"1").unwrap();
    storage.set(b"b", b"2").unwrap();
    storage.set(b"a", b"3").unwrap();
    assert_eq!(storage.get(b"a"), Some(&b"3"[..]));
    assert_eq!(storage.get(b"b"), Some(&b"2"[..]));
    assert_eq!(listed(&storage), vec![pair("a", "3"), pair("b", "2")]);
}

#[test]
fn law_get_after_delete_leaves_others() {
    let mut storage = Storage::new();
    storage.set(b"a", b"1").unwrap();
    storage.set(b"b", b"2").unwrap();
    storage.delete(b"a").unwrap();
    assert_eq!(storage.get(b"a"), None);
    assert_eq!(storage.get(b"b"), Some(&b"2"[..]));
}

#[test]
fn law_list_agrees_with_get() {
    let mut storage = Storage::new();
    storage.set(b"x", b"10").unwrap();
    storage.set(b"y", b"20").unwrap();
    storage.delete(b"x").unwrap();
    storage.set(b"z", b"30").unwrap();
    for (k, v) in listed(&storage) {
        assert_eq!(storage.get(&k), Some(&v[..]));
    }
    assert_eq!(listed(&storage), vec![pair("z", "30"), pair("y", "20")]);
}

#[test]
fn law_read_back_what_was_written() {
    let mut storage = Storage::new();
    storage.set(b"a", b"1").unwrap();
    storage.set(b"b", b"22").unwrap();
    let before = storage.read_entry(0).unwrap();
    storage.set(b"b", b"333").unwrap();
    let e = storage.read_entry(1).unwrap();
    let mut key = [0u8; MAX_KEY_LEN];
    key[0] = b'b';
    let mut value = [0u8; MAX_VALUE_LEN];
    value[..3].copy_from_slice(b"333");
    assert_eq!(e.key, key);
    assert_eq!(e.key_len, 1);
    assert_eq!(e.value, value);
    assert_eq!(e.value_len, 3);
    assert_eq!(e.valid, VALID);
    let after = storage.read_entry(0).unwrap();
    assert_eq!(before.key, after.key);
    assert_eq!(before.value, after.value);
    assert_eq!(
        (before.key_len, before.value_len, before.valid),
        (after.key_len, after.value_len, after.valid)
    );
    for j in MAX_ENTRIES..MAX_ENTRIES + 3 {
        assert!(matches!(storage.read_entry(j), Err("Index out of bounds")));
    }
}
