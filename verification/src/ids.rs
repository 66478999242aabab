use vstd::prelude::*;

verus! {

/// Partition of the connection-level request/stream id space.
///
/// Both ends of a connection allocate ids from their own counters, so a
/// client-allocated id could numerically equal a server-allocated one. The
/// id space is split in half by the high bit: clients allocate ids with the
/// high bit clear, servers with the high bit set, so the two allocators can
/// never overlap.
#[derive(Debug, Clone, Copy, PartialEq, Eq, Structural)]
pub enum IdSpace {
    Client,
    Server,
}

/// High bit that divides the id space between client and server.
pub const ID_SPACE_MASK: u32 = 0x8000_0000;

impl IdSpace {
    /// The direction marker of a space, as a number.
    pub open spec fn spec_marker(self) -> u32 {
        match self {
            IdSpace::Client => 0,
            IdSpace::Server => ID_SPACE_MASK,
        }
    }

    /// An id moved into this space's half: the low 31 bits of `id` with the
    /// space's marker as high bit.
    pub open spec fn spec_place(self, id: u32) -> u32 {
        (id & !ID_SPACE_MASK) | self.spec_marker()
    }

    /// The direction marker for this space.
    pub fn marker(self) -> (m: u32)
        ensures
            m == self.spec_marker(),
    {
        match self {
            IdSpace::Client => 0,
            IdSpace::Server => ID_SPACE_MASK,
        }
    }

    /// Place an arbitrary id into this space's half.
    pub fn place(self, id: u32) -> (placed: u32)
        ensures
            placed == self.spec_place(id),
    {
        (id & !ID_SPACE_MASK) | self.marker()
    }
}

/// The space an id belongs to, read from its high bit.
pub open spec fn space_of(id: u32) -> IdSpace {
    if id & ID_SPACE_MASK == 0 {
        IdSpace::Client
    } else {
        IdSpace::Server
    }
}

/// An id placed into a space belongs to that space, keeps the low 31 bits
/// of the original id, and placing it again changes nothing.
pub proof fn lemma_place_in_space(space: IdSpace, id: u32)
    ensures
        space_of(space.spec_place(id)) == space,
        space.spec_place(id) & !ID_SPACE_MASK == id & !ID_SPACE_MASK,
        space.spec_place(space.spec_place(id)) == space.spec_place(id),
{
    let m = space.spec_marker();
    assert(m == 0u32 || m == 0x8000_0000u32);
    assert(((id & !0x8000_0000u32) | 0u32) & 0x8000_0000u32 == 0u32) by (bit_vector);
    assert(((id & !0x8000_0000u32) | 0x8000_0000u32) & 0x8000_0000u32 != 0u32) by (bit_vector);
    assert(((id & !0x8000_0000u32) | m) & !0x8000_0000u32 == id & !0x8000_0000u32) by (bit_vector)
        requires m == 0u32 || m == 0x8000_0000u32;
    assert(((((id & !0x8000_0000u32) | m) & !0x8000_0000u32) | m) == ((id & !0x8000_0000u32) | m)) by (bit_vector)
        requires m == 0u32 || m == 0x8000_0000u32;
}

/// Ids placed by the client and ids placed by the server never collide,
/// whatever the raw ids were.
pub proof fn lemma_spaces_disjoint(client_id: u32, server_id: u32)
    ensures
        IdSpace::Client.spec_place(client_id) != IdSpace::Server.spec_place(server_id),
{
    lemma_place_in_space(IdSpace::Client, client_id);
    lemma_place_in_space(IdSpace::Server, server_id);
}

} // verus!
