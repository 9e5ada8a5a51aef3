//! A key-value store kept in an emulated flash region.
//!
//! The flash holds `MAX_ENTRIES` fixed-size records, one per slot, laid out
//! back to back from offset 0. A record is the byte image of an [`Entry`]:
//!
//! | bytes     | field                          |
//! |-----------|--------------------------------|
//! | 0 .. 16   | key, zero padded               |
//! | 16        | key length                     |
//! | 17 .. 81  | value, zero padded             |
//! | 81        | value length                   |
//! | 82        | valid flag (0xFF valid, 0x00 deleted) |
//!
//! Erased flash reads as 0xFF everywhere. An erased slot therefore has the
//! valid flag set but a key length of 0xFF, which no stored key can have: a
//! slot is in use exactly when its valid flag is 0xFF and its key length is at
//! most `MAX_KEY_LEN`. All other slots are free.
use vstd::prelude::*;

verus! {

/// Size of the emulated flash region in bytes.
pub const FLASH_SIZE: usize = 4096;

/// Number of record slots.
pub const MAX_ENTRIES: usize = 16;

/// Longest key that can be stored.
pub const MAX_KEY_LEN: usize = 16;

/// Longest value that can be stored.
pub const MAX_VALUE_LEN: usize = 64;

/// Size in bytes of one record (the byte image of an [`Entry`]).
pub const ENTRY_SIZE: usize = 83;

/// Offset of the key length inside a record.
pub const KEY_LEN_AT: usize = 16;

/// Offset of the value inside a record.
pub const VALUE_AT: usize = 17;

/// Offset of the value length inside a record.
pub const VALUE_LEN_AT: usize = 81;

/// Offset of the valid flag inside a record.
pub const VALID_AT: usize = 82;

/// Valid flag of a live record (also the value of erased flash).
pub const VALID: u8 = 0xFF;

/// Valid flag of a deleted record.
pub const DELETED: u8 = 0x00;

/// One record as stored in flash.
#[derive(Clone, Copy)]
pub struct Entry {
    pub key: [u8; MAX_KEY_LEN],
    pub key_len: u8,
    pub value: [u8; MAX_VALUE_LEN],
    pub value_len: u8,
    pub valid: u8,
}

impl Entry {
    /// The byte image of the entry in flash.
    pub open spec fn bytes(self) -> Seq<u8> {
        self.key@ + seq![self.key_len] + self.value@ + seq![self.value_len, self.valid]
    }

    /// An all-zero entry, marked deleted.
    pub fn new() -> (e: Self)
        ensures
            e.key@ == Seq::new(MAX_KEY_LEN as nat, |i: int| 0u8),
            e.key_len == 0,
            e.value@ == Seq::new(MAX_VALUE_LEN as nat, |i: int| 0u8),
            e.value_len == 0,
            e.valid == DELETED,
            e.bytes() == Seq::new(ENTRY_SIZE as nat, |i: int| 0u8),
    {
        let e = Entry {
            key: [0u8; MAX_KEY_LEN],
            key_len: 0,
            value: [0u8; MAX_VALUE_LEN],
            value_len: 0,
            valid: DELETED,
        };
        e
    }
}

/// The contents of one slot: its key and value if in use, `None` if free.
pub type Slot = Option<(Seq<u8>, Seq<u8>)>;

/// The record of slot `i` in the flash image.
pub open spec fn record(flash: Seq<u8>, i: int) -> Seq<u8> {
    flash.subrange(i * ENTRY_SIZE, i * ENTRY_SIZE + ENTRY_SIZE)
}

/// A record describes a stored pair.
pub open spec fn record_in_use(r: Seq<u8>) -> bool {
    r[VALID_AT as int] == VALID && r[KEY_LEN_AT as int] <= MAX_KEY_LEN
}

/// The key of a record.
pub open spec fn record_key(r: Seq<u8>) -> Seq<u8> {
    r.subrange(0, r[KEY_LEN_AT as int] as int)
}

/// The value of a record.
pub open spec fn record_value(r: Seq<u8>) -> Seq<u8> {
    r.subrange(VALUE_AT as int, VALUE_AT + r[VALUE_LEN_AT as int])
}

/// What a record means.
pub open spec fn decode_slot(r: Seq<u8>) -> Slot {
    if record_in_use(r) {
        Some((record_key(r), record_value(r)))
    } else {
        None
    }
}

/// The slots described by a flash image.
pub open spec fn slots_of(flash: Seq<u8>) -> Seq<Slot> {
    Seq::new(MAX_ENTRIES as nat, |i: int| decode_slot(record(flash, i)))
}

/// The record that stores `key` with `value`: both zero padded, lengths
/// recorded, marked valid.
pub open spec fn encode_entry(key: Seq<u8>, value: Seq<u8>) -> Seq<u8> {
    key + Seq::new((MAX_KEY_LEN - key.len()) as nat, |i: int| 0u8) + seq![key.len() as u8] + value
        + Seq::new((MAX_VALUE_LEN - value.len()) as nat, |i: int| 0u8) + seq![
        value.len() as u8,
        VALID,
    ]
}

/// The flash image after record `r` is written to slot `i`.
pub open spec fn write_record(flash: Seq<u8>, i: int, r: Seq<u8>) -> Seq<u8> {
    flash.subrange(0, i * ENTRY_SIZE) + r + flash.subrange(
        i * ENTRY_SIZE + ENTRY_SIZE,
        flash.len() as int,
    )
}

/// Slot `i` holds `key`.
pub open spec fn holds_key(s: Seq<Slot>, i: int, key: Seq<u8>) -> bool {
    &&& 0 <= i < s.len()
    &&& s[i] is Some
    &&& s[i].unwrap().0 == key
}

/// No key is held by two slots.
pub open spec fn keys_unique(s: Seq<Slot>) -> bool {
    forall|i: int, j: int|
        0 <= i < s.len() && 0 <= j < s.len() && i != j && (#[trigger] s[i]) is Some && (
        #[trigger] s[j]) is Some ==> s[i].unwrap().0 != s[j].unwrap().0
}

/// The slot that holds `key`, if any.
pub open spec fn key_slot(s: Seq<Slot>, key: Seq<u8>) -> Option<int> {
    if exists|i: int| holds_key(s, i, key) {
        Some(choose|i: int| holds_key(s, i, key))
    } else {
        None
    }
}

/// The value stored under `key`, if any.
pub open spec fn lookup(s: Seq<Slot>, key: Seq<u8>) -> Option<Seq<u8>> {
    match key_slot(s, key) {
        Some(i) => Some(s[i].unwrap().1),
        None => None,
    }
}

/// Slot `i` is the first free slot.
pub open spec fn is_first_free(s: Seq<Slot>, i: int) -> bool {
    &&& 0 <= i < s.len()
    &&& s[i] is None
    &&& forall|j: int| 0 <= j < i ==> (#[trigger] s[j]) is Some
}

/// The first free slot, if any.
pub open spec fn first_free(s: Seq<Slot>) -> Option<int> {
    if exists|i: int| is_first_free(s, i) {
        Some(choose|i: int| is_first_free(s, i))
    } else {
        None
    }
}

/// The slot `set` writes `key` to: the slot already holding it, else the first
/// free slot, else none (the store is full).
pub open spec fn set_target(s: Seq<Slot>, key: Seq<u8>) -> Option<int> {
    match key_slot(s, key) {
        Some(i) => Some(i),
        None => first_free(s),
    }
}

/// `r` failed with the given message.
pub open spec fn fails_with<T>(r: Result<T, &'static str>, msg: &str) -> bool {
    r matches Err(e) && e@ == msg@
}

/// The emulated flash region holding the store.
pub struct Storage {
    flash: Vec<u8>,
}

impl View for Storage {
    type V = Seq<u8>;

    /// The raw flash contents.
    closed spec fn view(&self) -> Seq<u8> {
        self.flash@
    }
}

impl Storage {
    /// The contents of the slots, in slot order.
    pub open spec fn slots(self) -> Seq<Slot> {
        slots_of(self@)
    }

    /// The flash has its full size, every stored value fits its field, and no
    /// key is stored twice.
    pub open spec fn wf(self) -> bool {
        &&& self@.len() == FLASH_SIZE
        &&& forall|i: int|
            0 <= i < MAX_ENTRIES && record_in_use(#[trigger] record(self@, i)) ==> record(
                self@,
                i,
            )[VALUE_LEN_AT as int] <= MAX_VALUE_LEN
        &&& keys_unique(self.slots())
    }
}

/// Writing a record into one slot leaves every other record as it was.
pub proof fn lemma_record_after_write(flash: Seq<u8>, t: int, r: Seq<u8>, j: int)
    requires
        flash.len() == FLASH_SIZE,
        r.len() == ENTRY_SIZE,
        0 <= t < MAX_ENTRIES,
        0 <= j < MAX_ENTRIES,
    ensures
        write_record(flash, t, r).len() == FLASH_SIZE,
        record(write_record(flash, t, r), j) == if j == t {
            r
        } else {
            record(flash, j)
        },
{
}

/// The slots after writing record `r` to slot `t`.
pub proof fn lemma_slots_after_write(flash: Seq<u8>, t: int, r: Seq<u8>)
    requires
        flash.len() == FLASH_SIZE,
        r.len() == ENTRY_SIZE,
        0 <= t < MAX_ENTRIES,
    ensures
        slots_of(write_record(flash, t, r)) == slots_of(flash).update(t, decode_slot(r)),
        forall|j: int|
            0 <= j < MAX_ENTRIES ==> #[trigger] record(write_record(flash, t, r), j) == if j
                == t {
                r
            } else {
                record(flash, j)
            },
{
    assert forall|j: int| 0 <= j < MAX_ENTRIES implies #[trigger] record(
        write_record(flash, t, r),
        j,
    ) == if j == t {
        r
    } else {
        record(flash, j)
    } by {
        lemma_record_after_write(flash, t, r, j);
    }
}

/// A freshly encoded record reads back as the pair it stores.
pub proof fn lemma_decode_encode(key: Seq<u8>, value: Seq<u8>)
    requires
        key.len() <= MAX_KEY_LEN,
        value.len() <= MAX_VALUE_LEN,
    ensures
        encode_entry(key, value).len() == ENTRY_SIZE,
        record_in_use(encode_entry(key, value)),
        encode_entry(key, value)[VALUE_LEN_AT as int] == value.len(),
        decode_slot(encode_entry(key, value)) == Some((key, value)),
{
}

impl Storage {
    /// A store over erased flash (every byte 0xFF): all slots free.
    pub fn new() -> (s: Self)
        ensures
            s.wf(),
            s@ == Seq::new(FLASH_SIZE as nat, |i: int| VALID),
            forall|i: int| 0 <= i < MAX_ENTRIES ==> (#[trigger] s.slots()[i]) is None,
    {
        let mut flash: Vec<u8> = Vec::new();
        let mut i: usize = 0;
        while i < FLASH_SIZE
            invariant
                i <= FLASH_SIZE,
                flash@.len() == i,
                forall|j: int| 0 <= j < i ==> flash@[j] == VALID,
            decreases FLASH_SIZE - i,
        {
            flash.push(VALID);
            i += 1;
        }
        let s = Storage { flash };
        proof {
            assert(s@ =~= Seq::new(FLASH_SIZE as nat, |i: int| VALID));
            lemma_erased_slots_free(s@);
        }
        s
    }

    /// Erases the whole flash (every byte 0xFF), which frees every slot.
    pub fn format(&mut self)
        requires
            old(self).wf(),
        ensures
            final(self).wf(),
            final(self)@ == Seq::new(FLASH_SIZE as nat, |i: int| VALID),
            forall|i: int| 0 <= i < MAX_ENTRIES ==> (#[trigger] final(self).slots()[i]) is None,
    {
        let mut i: usize = 0;
        while i < FLASH_SIZE
            invariant
                i <= FLASH_SIZE,
                self.flash@.len() == FLASH_SIZE,
                forall|j: int| 0 <= j < i ==> self.flash@[j] == VALID,
            decreases FLASH_SIZE - i,
        {
            self.flash.set(i, VALID);
            i += 1;
        }
        proof {
            assert(self@ =~= Seq::new(FLASH_SIZE as nat, |i: int| VALID));
            lemma_erased_slots_free(self@);
        }
    }

    /// Reads the record of slot `index`.
    pub fn read_entry(&self, index: usize) -> (r: Result<Entry, &'static str>)
        requires
            self.wf(),
        ensures
            index >= MAX_ENTRIES ==> fails_with(r, "Index out of bounds"),
            index < MAX_ENTRIES ==> (r matches Ok(e) && e.bytes() == record(self@, index as int)),
    {
        if index >= MAX_ENTRIES {
            return Err("Index out of bounds");
        }
        let offset = index * ENTRY_SIZE;
        let mut e = Entry::new();
        let mut j: usize = 0;
        while j < MAX_KEY_LEN
            invariant
                j <= MAX_KEY_LEN,
                offset == index * ENTRY_SIZE,
                index < MAX_ENTRIES,
                self.wf(),
                forall|k: int| 0 <= k < j ==> e.key@[k] == self@[offset + k],
            decreases MAX_KEY_LEN - j,
        {
            e.key[j] = self.flash[offset + j];
            j += 1;
        }
        e.key_len = self.flash[offset + KEY_LEN_AT];
        let mut j: usize = 0;
        while j < MAX_VALUE_LEN
            invariant
                j <= MAX_VALUE_LEN,
                offset == index * ENTRY_SIZE,
                index < MAX_ENTRIES,
                self.wf(),
                forall|k: int| 0 <= k < MAX_KEY_LEN ==> e.key@[k] == self@[offset + k],
                e.key_len == self@[offset + KEY_LEN_AT],
                forall|k: int| 0 <= k < j ==> e.value@[k] == self@[offset + VALUE_AT + k],
            decreases MAX_VALUE_LEN - j,
        {
            e.value[j] = self.flash[offset + VALUE_AT + j];
            j += 1;
        }
        e.value_len = self.flash[offset + VALUE_LEN_AT];
        e.valid = self.flash[offset + VALID_AT];
        Ok(e)
    }

    /// Writes the byte image of `entry` into slot `index`.
    fn write_entry(&mut self, index: usize, entry: &Entry) -> (r: Result<(), &'static str>)
        requires
            old(self)@.len() == FLASH_SIZE,
        ensures
            index >= MAX_ENTRIES ==> fails_with(r, "Index out of bounds") && final(self)@ == old(
                self,
            )@,
            index < MAX_ENTRIES ==> r is Ok && final(self)@ == write_record(
                old(self)@,
                index as int,
                entry.bytes(),
            ),
    {
        if index >= MAX_ENTRIES {
            return Err("Index out of bounds");
        }
        let offset = index * ENTRY_SIZE;
        let mut j: usize = 0;
        while j < ENTRY_SIZE
            invariant
                j <= ENTRY_SIZE,
                offset == index * ENTRY_SIZE,
                index < MAX_ENTRIES,
                self.flash@.len() == FLASH_SIZE,
                forall|k: int| 0 <= k < j ==> self.flash@[offset + k] == entry.bytes()[k],
                forall|k: int|
                    0 <= k < FLASH_SIZE && !(offset <= k < offset + j) ==> self.flash@[k] == old(
                        self,
                    ).flash@[k],
            decreases ENTRY_SIZE - j,
        {
            let b = entry_byte(entry, j);
            self.flash.set(offset + j, b);
            j += 1;
        }
        Ok(())
    }
}

/// Byte `j` of the entry's flash image.
fn entry_byte(e: &Entry, j: usize) -> (b: u8)
    requires
        j < ENTRY_SIZE,
    ensures
        b == e.bytes()[j as int],
{
    if j < KEY_LEN_AT {
        e.key[j]
    } else if j == KEY_LEN_AT {
        e.key_len
    } else if j < VALUE_LEN_AT {
        e.value[j - VALUE_AT]
    } else if j == VALUE_LEN_AT {
        e.value_len
    } else {
        e.valid
    }
}

/// In erased flash every slot is free.
proof fn lemma_erased_slots_free(flash: Seq<u8>)
    requires
        flash == Seq::new(FLASH_SIZE as nat, |i: int| VALID),
    ensures
        forall|i: int| 0 <= i < MAX_ENTRIES ==> (#[trigger] slots_of(flash)[i]) is None,
        forall|i: int| 0 <= i < MAX_ENTRIES ==> !record_in_use(#[trigger] record(flash, i)),
        keys_unique(slots_of(flash)),
{
}

/// What `list` reports for one slot: the key and value of a used slot, or
/// nothing for a free one.
pub open spec fn listed(s: Slot, e: (Option<&[u8]>, Option<&[u8]>)) -> bool {
    match s {
        Some((k, v)) => {
            &&& e.0 matches Some(a) && a@ == k
            &&& e.1 matches Some(b) && b@ == v
        },
        None => e.0 is None && e.1 is None,
    }
}

/// With unique keys, the slot found holding `key` is the one `key_slot` names.
pub proof fn lemma_key_slot_unique(s: Seq<Slot>, i: int, key: Seq<u8>)
    requires
        keys_unique(s),
        holds_key(s, i, key),
    ensures
        key_slot(s, key) == Some(i),
        lookup(s, key) == Some(s[i].unwrap().1),
{
    let c = choose|c: int| holds_key(s, c, key);
    assert(holds_key(s, c, key) && c == i);
}

/// The first free slot is unique.
pub proof fn lemma_first_free_unique(s: Seq<Slot>, i: int)
    requires
        is_first_free(s, i),
    ensures
        first_free(s) == Some(i),
{
    let c = choose|c: int| is_first_free(s, c);
    assert(is_first_free(s, c) && c == i);
}

/// Some slot is free exactly when a first free slot exists.
pub proof fn lemma_first_free_exists(s: Seq<Slot>, i: int)
    requires
        0 <= i < s.len(),
        s[i] is None,
    ensures
        first_free(s) is Some,
        is_first_free(s, first_free(s).unwrap()),
    decreases i,
{
    if forall|j: int| 0 <= j < i ==> (#[trigger] s[j]) is Some {
        assert(is_first_free(s, i));
    } else {
        let j = choose|j: int| 0 <= j < i && !((#[trigger] s[j]) is Some);
        lemma_first_free_exists(s, j);
    }
}

/// Entry `e` is a stored pair with key `key`.
fn entry_holds(e: &Entry, key: &[u8]) -> (b: bool)
    ensures
        b == (record_in_use(e.bytes()) && record_key(e.bytes()) == key@),
{
    if e.valid != VALID || e.key_len as usize > MAX_KEY_LEN || e.key_len as usize != key.len() {
        return false;
    }
    let mut j: usize = 0;
    while j < key.len()
        invariant
            j <= key@.len(),
            key@.len() == e.key_len,
            e.key_len <= MAX_KEY_LEN,
            forall|k: int| 0 <= k < j ==> e.key@[k] == key@[k],
        decreases key@.len() - j,
    {
        if e.key[j] != key[j] {
            return false;
        }
        j += 1;
    }
    assert(record_key(e.bytes()) =~= key@);
    true
}

/// Entry `e` is a stored pair.
fn entry_in_use(e: &Entry) -> (b: bool)
    ensures
        b == record_in_use(e.bytes()),
{
    e.valid == VALID && e.key_len as usize <= MAX_KEY_LEN
}

impl Storage {
    /// Stores `value` under `key`: in the slot that already holds `key`, else in
    /// the first free slot. Fails if the key or value is too long or if every
    /// slot is taken by other keys.
    pub fn set(&mut self, key: &[u8], value: &[u8]) -> (r: Result<(), &'static str>)
        requires
            old(self).wf(),
        ensures
            final(self).wf(),
            (key@.len() > MAX_KEY_LEN || value@.len() > MAX_VALUE_LEN) ==> fails_with(
                r,
                "Key or value too long",
            ) && final(self)@ == old(self)@,
            (key@.len() <= MAX_KEY_LEN && value@.len() <= MAX_VALUE_LEN) ==> match set_target(
                old(self).slots(),
                key@,
            ) {
                None => fails_with(r, "Storage full") && final(self)@ == old(self)@,
                Some(t) => {
                    &&& r is Ok
                    &&& final(self)@ == write_record(old(self)@, t, encode_entry(key@, value@))
                    &&& final(self).slots() == old(self).slots().update(t, Some((key@, value@)))
                },
            },
    {
        if key.len() > MAX_KEY_LEN || value.len() > MAX_VALUE_LEN {
            return Err("Key or value too long");
        }
        let ghost s = self.slots();
        let mut found: Option<usize> = None;
        let mut free: Option<usize> = None;
        let mut i: usize = 0;
        while i < MAX_ENTRIES && found.is_none()
            invariant
                i <= MAX_ENTRIES,
                self.wf(),
                self@ == old(self)@,
                s == self.slots(),
                found matches Some(f) ==> holds_key(s, f as int, key@),
                found is None ==> forall|j: int| 0 <= j < i ==> !holds_key(s, j, key@),
                free matches Some(f) ==> is_first_free(s, f as int),
                free is None ==> forall|j: int| 0 <= j < i ==> (#[trigger] s[j]) is Some,
            decreases MAX_ENTRIES - i,
        {
            let entry = self.read_entry(i)?;
            if entry_holds(&entry, key) {
                found = Some(i);
            } else if !entry_in_use(&entry) && free.is_none() {
                free = Some(i);
            }
            i += 1;
        }
        let slot = match found {
            Some(f) => {
                proof {
                    lemma_key_slot_unique(s, f as int, key@);
                }
                f
            },
            None => {
                match free {
                    Some(f) => {
                        proof {
                            lemma_first_free_unique(s, f as int);
                        }
                        f
                    },
                    None => {
                        return Err("Storage full");
                    },
                }
            },
        };
        let mut entry = Entry::new();
        let mut j: usize = 0;
        while j < key.len()
            invariant
                j <= key@.len(),
                key@.len() <= MAX_KEY_LEN,
                forall|k: int| 0 <= k < j ==> entry.key@[k] == key@[k],
                forall|k: int| j <= k < MAX_KEY_LEN ==> entry.key@[k] == 0,
                entry.value@ == Seq::new(MAX_VALUE_LEN as nat, |i: int| 0u8),
            decreases key@.len() - j,
        {
            entry.key[j] = key[j];
            j += 1;
        }
        entry.key_len = key.len() as u8;
        let mut j: usize = 0;
        while j < value.len()
            invariant
                j <= value@.len(),
                value@.len() <= MAX_VALUE_LEN,
                forall|k: int| 0 <= k < j ==> entry.value@[k] == value@[k],
                forall|k: int| j <= k < MAX_VALUE_LEN ==> entry.value@[k] == 0,
                key@.len() <= MAX_KEY_LEN,
                forall|k: int| 0 <= k < key@.len() ==> entry.key@[k] == key@[k],
                forall|k: int| key@.len() <= k < MAX_KEY_LEN ==> entry.key@[k] == 0,
                entry.key_len == key@.len(),
            decreases value@.len() - j,
        {
            entry.value[j] = value[j];
            j += 1;
        }
        entry.value_len = value.len() as u8;
        entry.valid = VALID;
        assert(entry.value@ =~= value@ + Seq::new(
            (MAX_VALUE_LEN - value@.len()) as nat,
            |i: int| 0u8,
        ));
        assert(entry.bytes() =~= encode_entry(key@, value@));
        proof {
            lemma_decode_encode(key@, value@);
            lemma_slots_after_write(old(self)@, slot as int, encode_entry(key@, value@));
        }
        let r = self.write_entry(slot, &entry);
        proof {
            let ns = self.slots();
            assert forall|a: int, b: int|
                0 <= a < ns.len() && 0 <= b < ns.len() && a != b && (#[trigger] ns[a]) is Some && (
                #[trigger] ns[b]) is Some implies ns[a].unwrap().0 != ns[b].unwrap().0 by {
                if a == slot {
                    assert(!holds_key(s, b, key@));
                } else if b == slot {
                    assert(!holds_key(s, a, key@));
                }
            }
        }
        r
    }

    /// The value stored under `key`, read straight from flash.
    pub fn get(&self, key: &[u8]) -> (r: Option<&[u8]>)
        requires
            self.wf(),
        ensures
            match lookup(self.slots(), key@) {
                Some(v) => r matches Some(x) && x@ == v,
                None => r is None,
            },
    {
        let ghost s = self.slots();
        let mut i: usize = 0;
        while i < MAX_ENTRIES
            invariant
                i <= MAX_ENTRIES,
                self.wf(),
                s == self.slots(),
                forall|j: int| 0 <= j < i ==> !holds_key(s, j, key@),
            decreases MAX_ENTRIES - i,
        {
            if let Ok(entry) = self.read_entry(i) {
                if entry_holds(&entry, key) {
                    let offset = i * ENTRY_SIZE + MAX_KEY_LEN + 1;
                    let v = vstd::slice::slice_subrange(
                        self.flash.as_slice(),
                        offset,
                        offset + entry.value_len as usize,
                    );
                    proof {
                        lemma_key_slot_unique(s, i as int, key@);
                    }
                    return Some(v);
                }
            }
            i += 1;
        }
        None
    }

    /// Marks the record holding `key` as deleted.
    pub fn delete(&mut self, key: &[u8]) -> (r: Result<(), &'static str>)
        requires
            old(self).wf(),
        ensures
            final(self).wf(),
            match key_slot(old(self).slots(), key@) {
                None => fails_with(r, "Key not found") && final(self)@ == old(self)@,
                Some(i) => {
                    &&& r is Ok
                    &&& final(self)@ == old(self)@.update(i * ENTRY_SIZE + VALID_AT, DELETED)
                    &&& final(self).slots() == old(self).slots().update(i, None)
                },
            },
    {
        let ghost s = self.slots();
        let mut i: usize = 0;
        while i < MAX_ENTRIES
            invariant
                i <= MAX_ENTRIES,
                self.wf(),
                self@ == old(self)@,
                s == self.slots(),
                forall|j: int| 0 <= j < i ==> !holds_key(s, j, key@),
            decreases MAX_ENTRIES - i,
        {
            let mut entry = self.read_entry(i)?;
            if entry_holds(&entry, key) {
                proof {
                    lemma_key_slot_unique(s, i as int, key@);
                }
                let ghost old_bytes = entry.bytes();
                entry.valid = DELETED;
                assert(entry.bytes() =~= old_bytes.update(VALID_AT as int, DELETED));
                proof {
                    lemma_slots_after_write(old(self)@, i as int, entry.bytes());
                }
                self.write_entry(i, &entry)?;
                return Ok(());
            }
            i += 1;
        }
        Err("Key not found")
    }

    /// Every slot's key and value, in slot order; free slots give `(None, None)`.
    pub fn list(&self) -> (r: [(Option<&[u8]>, Option<&[u8]>); MAX_ENTRIES])
        requires
            self.wf(),
        ensures
            forall|i: int| 0 <= i < MAX_ENTRIES ==> listed(self.slots()[i], #[trigger] r@[i]),
    {
        let ghost s = self.slots();
        let mut result: [(Option<&[u8]>, Option<&[u8]>); MAX_ENTRIES] = [(None, None); 16];
        let mut i: usize = 0;
        while i < MAX_ENTRIES
            invariant
                i <= MAX_ENTRIES,
                self.wf(),
                s == self.slots(),
                forall|j: int| 0 <= j < i ==> listed(s[j], #[trigger] result@[j]),
                forall|j: int| i <= j < MAX_ENTRIES ==> (#[trigger] result@[j]) == (
                    None::<&[u8]>,
                    None::<&[u8]>,
                ),
            decreases MAX_ENTRIES - i,
        {
            if let Ok(entry) = self.read_entry(i) {
                if entry_in_use(&entry) {
                    let offset = i * ENTRY_SIZE;
                    let k = vstd::slice::slice_subrange(
                        self.flash.as_slice(),
                        offset,
                        offset + entry.key_len as usize,
                    );
                    let v = vstd::slice::slice_subrange(
                        self.flash.as_slice(),
                        offset + VALUE_AT,
                        offset + VALUE_AT + entry.value_len as usize,
                    );
                    assert(k@ =~= record_key(record(self@, i as int)));
                    assert(v@ =~= record_value(record(self@, i as int)));
                    result[i] = (Some(k), Some(v));
                }
            }
            i += 1;
        }
        result
    }
}

/// A successful `set` makes `get` return the value just stored under that key,
/// leaves every other key's value as it was, and keeps keys unique.
pub proof fn lemma_get_after_set(s: Seq<Slot>, key: Seq<u8>, value: Seq<u8>, other: Seq<u8>)
    requires
        keys_unique(s),
        set_target(s, key) is Some,
        other != key,
    ensures
        keys_unique(s.update(set_target(s, key).unwrap(), Some((key, value)))),
        lookup(s.update(set_target(s, key).unwrap(), Some((key, value))), key) == Some(value),
        lookup(s.update(set_target(s, key).unwrap(), Some((key, value))), other) == lookup(
            s,
            other,
        ),
{
    let t = set_target(s, key).unwrap();
    let ns = s.update(t, Some((key, value)));
    assert forall|a: int, b: int|
        0 <= a < ns.len() && 0 <= b < ns.len() && a != b && (#[trigger] ns[a]) is Some && (
        #[trigger] ns[b]) is Some implies ns[a].unwrap().0 != ns[b].unwrap().0 by {
        if a == t {
            assert(!holds_key(s, b, key));
        } else if b == t {
            assert(!holds_key(s, a, key));
        }
    }
    lemma_key_slot_unique(ns, t, key);
    if exists|i: int| holds_key(s, i, other) {
        let i = choose|i: int| holds_key(s, i, other);
        assert(i != t);
        lemma_key_slot_unique(s, i, other);
        lemma_key_slot_unique(ns, i, other);
    } else {
        assert forall|i: int| !holds_key(ns, i, other) by {
            if holds_key(ns, i, other) && i != t {
                assert(holds_key(s, i, other));
            }
        }
    }
}

/// After `delete` removes a key, `get` finds nothing under it, and every other
/// key keeps its value.
pub proof fn lemma_get_after_delete(s: Seq<Slot>, key: Seq<u8>, other: Seq<u8>)
    requires
        keys_unique(s),
        key_slot(s, key) is Some,
        other != key,
    ensures
        keys_unique(s.update(key_slot(s, key).unwrap(), None)),
        lookup(s.update(key_slot(s, key).unwrap(), None), key) is None,
        lookup(s.update(key_slot(s, key).unwrap(), None), other) == lookup(s, other),
{
    let i = key_slot(s, key).unwrap();
    let ns = s.update(i, None);
    assert(forall|j: int| !holds_key(ns, j, key));
    if exists|j: int| holds_key(s, j, other) {
        let j = choose|j: int| holds_key(s, j, other);
        lemma_key_slot_unique(s, j, other);
        lemma_key_slot_unique(ns, j, other);
    } else {
        assert forall|j: int| !holds_key(ns, j, other) by {
            if holds_key(ns, j, other) {
                assert(holds_key(s, j, other));
            }
        }
    }
}

/// `set` reports a full store exactly when the key is not stored and every
/// slot is in use; when the key is stored, `set` overwrites it in place.
pub proof fn lemma_set_full_iff(s: Seq<Slot>, key: Seq<u8>)
    ensures
        set_target(s, key) is None <==> (lookup(s, key) is None && forall|i: int|
            0 <= i < s.len() ==> (#[trigger] s[i]) is Some),
        lookup(s, key) is Some ==> set_target(s, key) == key_slot(s, key),
{
    if set_target(s, key) is None {
        assert forall|i: int| 0 <= i < s.len() implies (#[trigger] s[i]) is Some by {
            if s[i] is None {
                lemma_first_free_exists(s, i);
            }
        }
    }
}

/// With every slot free, no key has a value (the state after `new` and `format`).
pub proof fn lemma_lookup_all_free(s: Seq<Slot>, key: Seq<u8>)
    requires
        forall|i: int| 0 <= i < s.len() ==> (#[trigger] s[i]) is None,
    ensures
        lookup(s, key) is None,
{
}

/// `list` and `get` agree: a key has a value exactly when some slot lists that
/// key with that value.
pub proof fn lemma_list_agrees_with_get(s: Seq<Slot>, key: Seq<u8>, value: Seq<u8>)
    requires
        keys_unique(s),
    ensures
        lookup(s, key) == Some(value) <==> exists|i: int|
            0 <= i < s.len() && #[trigger] s[i] == Some((key, value)),
{
    if exists|i: int| 0 <= i < s.len() && #[trigger] s[i] == Some((key, value)) {
        let i = choose|i: int| 0 <= i < s.len() && #[trigger] s[i] == Some((key, value));
        lemma_key_slot_unique(s, i, key);
    }
}

/// An entry is determined by its byte image.
pub proof fn lemma_entry_from_bytes(e: Entry, f: Entry)
    requires
        e.bytes() == f.bytes(),
    ensures
        e == f,
{
    assert(e.bytes().subrange(0, KEY_LEN_AT as int) =~= e.key@);
    assert(e.bytes().subrange(VALUE_AT as int, VALUE_LEN_AT as int) =~= e.value@);
    assert forall|i: int| 0 <= i < MAX_KEY_LEN implies e.key[i] == f.key[i] by {}
    assert forall|i: int| 0 <= i < MAX_VALUE_LEN implies e.value[i] == f.value[i] by {}
    assert(e.bytes()[KEY_LEN_AT as int] == e.key_len);
    assert(e.bytes()[VALUE_LEN_AT as int] == e.value_len);
    assert(e.bytes()[VALID_AT as int] == e.valid);
    assert(e.key =~= f.key);
    assert(e.value =~= f.value);
}

/// Reading a slot back gives exactly the entry last written to it, and writing
/// one slot leaves every other slot's entry as it was: an entry whose bytes are
/// the record of slot `t` after writing `e` there (what `read_entry` returns)
/// is `e` itself.
pub proof fn lemma_read_after_write(flash: Seq<u8>, t: int, e: Entry, read: Entry)
    requires
        flash.len() == FLASH_SIZE,
        0 <= t < MAX_ENTRIES,
        read.bytes() == record(write_record(flash, t, e.bytes()), t),
    ensures
        read == e,
        forall|j: int|
            0 <= j < MAX_ENTRIES && j != t ==> #[trigger] record(write_record(flash, t, e.bytes()), j)
                == record(flash, j),
{
    lemma_slots_after_write(flash, t, e.bytes());
    lemma_entry_from_bytes(read, e);
}
/// Where `set` stores a key: in the slot that already holds it if there is
/// one, otherwise in the lowest-numbered free slot; it reports a full store
/// only when no slot holds the key and none is free.
pub proof fn lemma_set_target_slot(s: Seq<Slot>, key: Seq<u8>)
    ensures
        match set_target(s, key) {
            Some(t) => {
                &&& 0 <= t < s.len()
                &&& (exists|i: int| holds_key(s, i, key)) ==> holds_key(s, t, key)
                &&& !(exists|i: int| holds_key(s, i, key)) ==> {
                    &&& s[t] is None
                    &&& forall|j: int| 0 <= j < t ==> (#[trigger] s[j]) is Some
                }
            },
            None => {
                &&& forall|i: int| !holds_key(s, i, key)
                &&& forall|i: int| 0 <= i < s.len() ==> (#[trigger] s[i]) is Some
            },
        },
{
    lemma_set_full_iff(s, key);
}
} // verus!
