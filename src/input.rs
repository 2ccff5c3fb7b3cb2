use vstd::prelude::*;

verus! {

/// Pixels a sprite moves per tick for each unit of a directional magnitude.
pub const KEY_SPEED: usize = 4;

/// Why a raw input packet was discarded.
#[derive(Debug, Clone, Copy, PartialEq, Eq, Structural)]
pub enum DecodeError {
    /// The packet holds a trailing byte that does not complete a value.
    OddLength,
}

/// Whether `v` is the pair `(b0, b1)` read as a 16-bit value in one of the
/// two byte orders, as the machine's native order does.
pub open spec fn native_pair(b0: u8, b1: u8, v: u16) -> bool {
    v == b0 as int + 256 * b1 as int || v == b1 as int + 256 * b0 as int
}

/// Whether `values` is `packet` read pair by pair in native byte order.
pub open spec fn decodes(packet: Seq<u8>, values: Seq<u16>) -> bool {
    &&& packet.len() == 2 * values.len()
    &&& forall|i: int| 0 <= i < values.len() ==> native_pair(packet[2 * i], packet[2 * i + 1], #[trigger] values[i])
}

/// Relies on u16::from_ne_bytes: two bytes read as one value in the
/// machine's byte order, which is little or big endian.
#[verifier::external_body]
fn u16_from_ne(pair: [u8; 2]) -> (r: u16)
    ensures
        native_pair(pair@[0], pair@[1], r),
{
    u16::from_ne_bytes(pair)
}

/// Reads a raw input packet as 16-bit values, one per pair of bytes in
/// native byte order. A packet of odd length is refused whole.
pub fn decode_packet(packet: &[u8]) -> (r: Result<Vec<u16>, DecodeError>)
    ensures
        packet@.len() % 2 == 1 <==> r == Err::<Vec<u16>, DecodeError>(DecodeError::OddLength),
        packet@.len() % 2 == 0 <==> r is Ok,
        r matches Ok(values) ==> decodes(packet@, values@),
{
    let n = packet.len();
    if n % 2 == 1 {
        return Err(DecodeError::OddLength);
    }
    let mut values: Vec<u16> = Vec::new();
    let mut i: usize = 0;
    while i < n / 2
        invariant
            n == packet@.len(),
            n % 2 == 0,
            i <= n / 2,
            values@.len() == i,
            forall|j: int| 0 <= j < i ==> native_pair(packet@[2 * j], packet@[2 * j + 1], #[trigger] values@[j]),
        decreases n / 2 - i,
    {
        let v = u16_from_ne([packet[2 * i], packet[2 * i + 1]]);
        values.push(v);
        i += 1;
    }
    Ok(values)
}

/// A pointer coordinate moved into a dimension of `dim` pixels.
pub open spec fn clamp_coord(v: int, dim: int) -> int {
    if v < dim {
        v
    } else if dim > 0 {
        dim - 1
    } else {
        0
    }
}

/// The input state that entities read each tick: where the pointer is, and
/// four directional magnitudes already scaled by `KEY_SPEED`, in the order
/// left, up, right, down.
#[derive(Debug, Clone, Copy, PartialEq, Eq)]
pub struct InputSnapshot {
    pub pointer_x: usize,
    pub pointer_y: usize,
    pub keys: [usize; 4],
}

impl InputSnapshot {
    /// The snapshot after one decoded packet: index 0 sets the pointer's x,
    /// index 1 its y, indices 2 to 5 the four magnitudes; an index that the
    /// packet does not reach leaves its field as it was.
    pub open spec fn with_values(self, values: Seq<u16>, dims: (usize, usize)) -> InputSnapshot {
        InputSnapshot {
            pointer_x: if values.len() > 0 {
                clamp_coord(values[0] as int, dims.0 as int) as usize
            } else {
                self.pointer_x
            },
            pointer_y: if values.len() > 1 {
                clamp_coord(values[1] as int, dims.1 as int) as usize
            } else {
                self.pointer_y
            },
            keys: self.keys,
        }.with_keys(values)
    }

    /// The magnitudes of `values` (from index 2 on) written over `self.keys`.
    pub open spec fn with_keys(self, values: Seq<u16>) -> InputSnapshot {
        InputSnapshot {
            keys: [
                if values.len() > 2 { (values[2] * KEY_SPEED) as usize } else { self.keys[0] },
                if values.len() > 3 { (values[3] * KEY_SPEED) as usize } else { self.keys[1] },
                if values.len() > 4 { (values[4] * KEY_SPEED) as usize } else { self.keys[2] },
                if values.len() > 5 { (values[5] * KEY_SPEED) as usize } else { self.keys[3] },
            ],
            ..self
        }
    }

    /// The snapshot after each packet of `packets` in turn.
    pub open spec fn with_all(self, packets: Seq<Seq<u16>>, dims: (usize, usize)) -> InputSnapshot
        decreases packets.len(),
    {
        if packets.len() == 0 {
            self
        } else {
            self.with_all(packets.drop_last(), dims).with_values(packets.last(), dims)
        }
    }

    /// The pointer at the origin and no magnitude held.
    pub open spec fn idle() -> InputSnapshot {
        InputSnapshot { pointer_x: 0, pointer_y: 0, keys: [0, 0, 0, 0] }
    }

    /// See `idle`.
    pub fn new() -> (r: InputSnapshot)
        ensures
            r == InputSnapshot::idle(),
    {
        InputSnapshot { pointer_x: 0, pointer_y: 0, keys: [0, 0, 0, 0] }
    }

    /// Takes in one decoded packet; see `with_values`.
    pub fn apply_values(&mut self, values: &Vec<u16>, dims: (usize, usize))
        ensures
            *final(self) == old(self).with_values(values@, dims),
    {
        let n = values.len();
        if n > 0 {
            self.pointer_x = clamp_pointer(values[0], dims.0);
        }
        if n > 1 {
            self.pointer_y = clamp_pointer(values[1], dims.1);
        }
        let mut i: usize = 0;
        while i < 4
            invariant
                n == values@.len(),
                i <= 4,
                self.pointer_x == old(self).with_values(values@, dims).pointer_x,
                self.pointer_y == old(self).with_values(values@, dims).pointer_y,
                forall|j: int| 0 <= j < 4 ==> #[trigger] self.keys@[j] == if j < i {
                    old(self).with_values(values@, dims).keys@[j]
                } else {
                    old(self).keys@[j]
                },
            decreases 4 - i,
        {
            if n > i + 2 {
                self.keys[i] = values[i + 2] as usize * KEY_SPEED;
            }
            i += 1;
        }
        assert(self.keys =~= old(self).with_values(values@, dims).keys);
    }

    /// Decodes a raw packet and takes it in. A packet of odd length is
    /// refused and leaves the snapshot as it was.
    pub fn apply_packet(&mut self, packet: &[u8], dims: (usize, usize)) -> (r: Result<(), DecodeError>)
        ensures
            packet@.len() % 2 == 1 <==> r == Err::<(), DecodeError>(DecodeError::OddLength),
            packet@.len() % 2 == 0 <==> r is Ok,
            r is Err ==> *final(self) == *old(self),
            r is Ok ==> exists|values: Seq<u16>|
                decodes(packet@, values) && *final(self) == #[trigger] old(self).with_values(values, dims),
    {
        match decode_packet(packet) {
            Ok(values) => {
                self.apply_values(&values, dims);
                Ok(())
            },
            Err(e) => Err(e),
        }
    }

    /// Takes in each decoded packet of `packets`, oldest first, so that the
    /// last value given for a field wins.
    pub fn apply_all(&mut self, packets: &Vec<Vec<u16>>, dims: (usize, usize))
        ensures
            *final(self) == old(self).with_all(packets@.map_values(|p: Vec<u16>| p@), dims),
    {
        let ghost all = packets@.map_values(|p: Vec<u16>| p@);
        let mut i: usize = 0;
        while i < packets.len()
            invariant
                i <= packets@.len(),
                all == packets@.map_values(|p: Vec<u16>| p@),
                *self == old(self).with_all(all.take(i as int), dims),
            decreases packets@.len() - i,
        {
            assert(all.take(i + 1).drop_last() =~= all.take(i as int));
            self.apply_values(&packets[i], dims);
            i += 1;
        }
        assert(all.take(i as int) =~= all);
    }
}

/// `v` moved into a dimension of `dim` pixels; see `clamp_coord`.
fn clamp_pointer(v: u16, dim: usize) -> (r: usize)
    ensures
        r == clamp_coord(v as int, dim as int),
{
    if (v as usize) < dim {
        v as usize
    } else if dim > 0 {
        dim - 1
    } else {
        0
    }
}

/// A packet of four bytes moves the pointer to the two values it holds and
/// leaves every directional magnitude as it was.
pub proof fn lemma_pointer_packet(s: InputSnapshot, packet: Seq<u8>, values: Seq<u16>, dims: (usize, usize))
    requires
        packet.len() == 4,
        decodes(packet, values),
    ensures
        s.with_values(values, dims).keys == s.keys,
        s.with_values(values, dims).pointer_x == clamp_coord(values[0] as int, dims.0 as int),
        s.with_values(values, dims).pointer_y == clamp_coord(values[1] as int, dims.1 as int),
{
    assert(s.with_values(values, dims).keys =~= s.keys);
}

} // verus!
