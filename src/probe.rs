//! Checks of the one-shot colour allocation probe. The server's replies come
//! in as plain values; the probe fails on a reply that breaks its assertions.
use vstd::prelude::*;

verus! {

/// The red channel the probe allocates.
pub const PROBE_RED: u16 = 0xcccc;

/// The green channel the probe allocates.
pub const PROBE_GREEN: u16 = 0xbebe;

/// The blue channel the probe allocates.
pub const PROBE_BLUE: u16 = 0x8181;

/// Pixels `0..PROBE_PIXELS` are queried in bulk.
pub const PROBE_PIXELS: u32 = 1024;

#[derive(Clone, Copy, PartialEq, Eq, Structural, Debug)]
pub struct Rgb {
    pub red: u16,
    pub green: u16,
    pub blue: u16,
}

#[derive(Clone, Copy, PartialEq, Eq, Structural, Debug)]
pub enum ProbeError {
    /// The server allocated other channel values than those requested.
    ChannelMismatch { requested: Rgb, allocated: Rgb },
    /// The query of the allocated pixel returned no colour.
    EmptyQuery,
    /// The query of the allocated pixel returned other channel values than
    /// those requested.
    QueryMismatch { requested: Rgb, queried: Rgb },
}

/// The colour the probe requests.
pub fn probe_color() -> (r: Rgb)
    ensures
        r == (Rgb { red: PROBE_RED, green: PROBE_GREEN, blue: PROBE_BLUE }),
{
    Rgb { red: PROBE_RED, green: PROBE_GREEN, blue: PROBE_BLUE }
}

/// The pixels `0, 1, ..., bound - 1`, in order.
pub fn pixel_range(bound: u32) -> (r: Vec<u32>)
    ensures
        r@.len() == bound,
        forall|k: int| 0 <= k < bound ==> r@[k] == k,
{
    let mut r: Vec<u32> = Vec::new();
    let mut p: u32 = 0;
    while p < bound
        invariant
            p <= bound,
            r@.len() == p,
            forall|k: int| 0 <= k < p ==> r@[k] == k,
        decreases bound - p,
    {
        r.push(p);
        p = p + 1;
    }
    r
}

/// The allocation must echo the requested channels exactly, with no
/// requantisation.
pub fn check_allocation(requested: Rgb, allocated: Rgb) -> (r: Result<(), ProbeError>)
    ensures
        requested == allocated <==> r is Ok,
        requested != allocated ==> r == Err::<(), ProbeError>(ProbeError::ChannelMismatch { requested, allocated }),
{
    if requested.red == allocated.red && requested.green == allocated.green && requested.blue == allocated.blue {
        Ok(())
    } else {
        Err(ProbeError::ChannelMismatch { requested, allocated })
    }
}

/// The query of the allocated pixel must return at least one colour.
pub fn check_query(colors: &Vec<Rgb>) -> (r: Result<(), ProbeError>)
    ensures
        colors@.len() > 0 <==> r is Ok,
        colors@.len() == 0 ==> r == Err::<(), ProbeError>(ProbeError::EmptyQuery),
{
    if colors.len() > 0 {
        Ok(())
    } else {
        Err(ProbeError::EmptyQuery)
    }
}

/// Querying the allocated pixel must give back exactly the requested
/// channels: the reply holds at least one colour, and its first is `requested`.
pub fn check_round_trip(requested: Rgb, colors: &Vec<Rgb>) -> (r: Result<(), ProbeError>)
    ensures
        r is Ok <==> colors@.len() > 0 && colors@[0] == requested,
        colors@.len() == 0 ==> r == Err::<(), ProbeError>(ProbeError::EmptyQuery),
        colors@.len() > 0 && colors@[0] != requested ==> r == Err::<(), ProbeError>(
            ProbeError::QueryMismatch { requested, queried: colors@[0] },
        ),
{
    if colors.len() == 0 {
        return Err(ProbeError::EmptyQuery);
    }
    let q = colors[0];
    if q.red == requested.red && q.green == requested.green && q.blue == requested.blue {
        Ok(())
    } else {
        Err(ProbeError::QueryMismatch { requested, queried: q })
    }
}

} // verus!
