//! Turning the flat result buffers of a multi-zone ranging sensor into
//! dimensioned matrices with typed target status.
use vstd::prelude::*;
use vstd::arithmetic::div_mod::lemma_fundamental_div_mod_converse;

verus! {

/// Classification of one raw target status byte.
///
/// The sensor reports statuses 0..=13 and 255; other values signal a
/// desynchronised transport and are never classified.
#[derive(Clone, Copy, Debug, PartialEq, Eq, Structural)]
pub enum TargetStatus {
    /// Fully valid measurement (status 5).
    Valid(u8),
    /// Measurement valid with reduced confidence (status 6 or 9).
    HalfValid(u8),
    /// No target detected (status 255).
    Invalid,
    /// Any other defined status (0..=13, but not 5, 6 or 9).
    Other(u8),
}

/// A status byte the sensor may legitimately report.
pub open spec fn status_defined(v: u8) -> bool {
    v <= 13 || v == 255
}

/// The classification of a defined status byte.
pub open spec fn status_of(v: u8) -> TargetStatus {
    if v == 5 {
        TargetStatus::Valid(v)
    } else if v == 6 || v == 9 {
        TargetStatus::HalfValid(v)
    } else if v == 255 {
        TargetStatus::Invalid
    } else {
        TargetStatus::Other(v)
    }
}

impl TargetStatus {
    /// Classifies a raw status byte as read from the sensor.
    pub fn from_uld(v: u8) -> (r: TargetStatus)
        requires
            status_defined(v),
        ensures
            r == status_of(v),
    {
        match v {
            5 => TargetStatus::Valid(v),
            6 | 9 => TargetStatus::HalfValid(v),
            255 => TargetStatus::Invalid,
            _ => TargetStatus::Other(v),
        }
    }
}


/// Sensor die temperature in degrees Celsius, reported once per ranging cycle.
#[derive(Clone, Copy, Debug, PartialEq, Eq, Structural)]
pub struct TempC(pub i8);

/// One ranging cycle as the sensor's driver hands it over: flat buffers in
/// the vendor layout.
///
/// Zone fields hold one value per zone, row-major. Target fields hold, for
/// each zone in row-major order, that zone's target slots one after another.
/// Only the leading part of each buffer that the matrix shape needs is read.
pub struct RawResults {
    pub silicon_temp_degc: i8,
    pub ambient_per_spad: Vec<u32>,
    pub nb_target_detected: Vec<u8>,
    pub nb_spads_enabled: Vec<u32>,
    pub target_status: Vec<u8>,
    pub distance_mm: Vec<i16>,
    pub range_sigma_mm: Vec<u16>,
    pub reflectance: Vec<u8>,
    pub signal_per_spad: Vec<u32>,
}

/// Position of zone (`r`, `c`) in a zone buffer.
pub open spec fn zone_index(dim: int, r: int, c: int) -> int {
    r * dim + c
}

/// Position of target `t` of zone (`r`, `c`) in a target buffer.
pub open spec fn slot_index(dim: int, targets: int, r: int, c: int, t: int) -> int {
    (r * dim + c) * targets + t
}

/// `m` is the `dim` x `dim` matrix laid out row-major at the start of `raw`.
pub open spec fn is_zone_matrix<X>(m: Vec<Vec<X>>, raw: Seq<X>, dim: int) -> bool {
    &&& m@.len() == dim
    &&& forall|r: int| 0 <= r < dim ==> (#[trigger] m@[r])@.len() == dim
    &&& forall|r: int, c: int|
        0 <= r < dim && 0 <= c < dim ==> (#[trigger] m@[r]@[c]) == raw[zone_index(dim, r, c)]
}

/// `m` is the matrix of target slot `t` in the target buffer `raw`.
pub open spec fn is_slot_matrix<X>(m: Vec<Vec<X>>, raw: Seq<X>, dim: int, targets: int, t: int) -> bool {
    &&& m@.len() == dim
    &&& forall|r: int| 0 <= r < dim ==> (#[trigger] m@[r])@.len() == dim
    &&& forall|r: int, c: int|
        0 <= r < dim && 0 <= c < dim ==> (#[trigger] m@[r]@[c]) == raw[slot_index(dim, targets, r, c, t)]
}

/// `m` holds, for every target slot, its matrix in the target buffer `raw`.
pub open spec fn is_target_matrices<X>(m: Vec<Vec<Vec<X>>>, raw: Seq<X>, dim: int, targets: int) -> bool {
    &&& m@.len() == targets
    &&& forall|t: int| 0 <= t < targets ==> is_slot_matrix(#[trigger] m@[t], raw, dim, targets, t)
}

/// `m` is the distance matrix of target slot `t`: each raw signed value,
/// which is not negative, taken as unsigned.
pub open spec fn is_distance_matrix(m: Vec<Vec<u16>>, raw: Seq<i16>, dim: int, targets: int, t: int) -> bool {
    &&& m@.len() == dim
    &&& forall|r: int| 0 <= r < dim ==> (#[trigger] m@[r])@.len() == dim
    &&& forall|r: int, c: int|
        0 <= r < dim && 0 <= c < dim ==> (#[trigger] m@[r]@[c]) as int
            == raw[slot_index(dim, targets, r, c, t)] as int
}

/// `m` is the status matrix of target slot `t`: the classification of each
/// raw status byte.
pub open spec fn is_status_matrix(m: Vec<Vec<TargetStatus>>, raw: Seq<u8>, dim: int, targets: int, t: int) -> bool {
    &&& m@.len() == dim
    &&& forall|r: int| 0 <= r < dim ==> (#[trigger] m@[r])@.len() == dim
    &&& forall|r: int, c: int|
        0 <= r < dim && 0 <= c < dim ==> (#[trigger] m@[r]@[c])
            == status_of(raw[slot_index(dim, targets, r, c, t)])
}

/// The first `n` raw distances are all non-negative.
pub open spec fn distances_non_negative(raw: Seq<i16>, n: int) -> bool {
    forall|i: int| 0 <= i < n ==> #[trigger] raw[i] >= 0
}

/// The first `n` raw status bytes are all defined statuses.
pub open spec fn statuses_defined(raw: Seq<u8>, n: int) -> bool {
    forall|i: int| 0 <= i < n ==> status_defined(#[trigger] raw[i])
}

proof fn lemma_zone_in_bounds(dim: int, r: int, c: int)
    requires
        0 <= r < dim,
        0 <= c < dim,
    ensures
        0 <= zone_index(dim, r, c) < dim * dim,
{
    assert(r * dim + c < dim * dim) by (nonlinear_arith)
        requires
            0 <= r < dim,
            0 <= c < dim,
    ;
    assert(0 <= r * dim) by (nonlinear_arith)
        requires
            0 <= r,
            0 <= dim,
    ;
}

proof fn lemma_slot_in_bounds(dim: int, targets: int, r: int, c: int, t: int)
    requires
        0 <= r < dim,
        0 <= c < dim,
        0 <= t < targets,
    ensures
        0 <= zone_index(dim, r, c) <= zone_index(dim, r, c) * targets,
        0 <= slot_index(dim, targets, r, c, t) < dim * dim * targets,
{
    lemma_zone_in_bounds(dim, r, c);
    let z = zone_index(dim, r, c);
    assert(z * targets + t < dim * dim * targets) by (nonlinear_arith)
        requires
            0 <= z < dim * dim,
            0 <= t < targets,
    ;
    assert(0 <= z <= z * targets) by (nonlinear_arith)
        requires
            0 <= z,
            0 <= t < targets,
    ;
}

/// Copies the `dim` x `dim` zone matrix out of the start of `raw`.
fn into_matrix<X: Copy>(raw: &Vec<X>, dim: usize) -> (m: Vec<Vec<X>>)
    requires
        dim * dim <= raw@.len(),
    ensures
        is_zone_matrix(m, raw@, dim as int),
{
    let len: usize = raw.len();
    let mut m: Vec<Vec<X>> = Vec::new();
    let mut r: usize = 0;
    while r < dim
        invariant
            r <= dim,
            dim * dim <= raw@.len(),
            len == raw@.len(),
            m@.len() == r,
            forall|i: int| 0 <= i < r ==> (#[trigger] m@[i])@.len() == dim,
            forall|i: int, c: int|
                0 <= i < r && 0 <= c < dim ==> (#[trigger] m@[i]@[c]) == raw@[zone_index(dim as int, i, c)],
        decreases dim - r,
    {
        let mut row: Vec<X> = Vec::new();
        let mut c: usize = 0;
        while c < dim
            invariant
                r < dim,
                c <= dim,
                dim * dim <= raw@.len(),
                len == raw@.len(),
                row@.len() == c,
                forall|j: int| 0 <= j < c ==> (#[trigger] row@[j]) == raw@[zone_index(dim as int, r as int, j)],
            decreases dim - c,
        {
            proof {
                lemma_zone_in_bounds(dim as int, r as int, c as int);
            }
            let v: X = raw[r * dim + c];
            row.push(v);
            c += 1;
        }
        m.push(row);
        r += 1;
    }
    m
}

/// Copies the matrix of target slot `offset` out of the target buffer `raw`.
fn into_matrix_o<X: Copy>(raw: &Vec<X>, dim: usize, targets: usize, offset: usize) -> (m: Vec<Vec<X>>)
    requires
        dim * dim * targets <= raw@.len(),
        offset < targets,
    ensures
        is_slot_matrix(m, raw@, dim as int, targets as int, offset as int),
{
    let len: usize = raw.len();
    let mut m: Vec<Vec<X>> = Vec::new();
    let mut r: usize = 0;
    while r < dim
        invariant
            r <= dim,
            offset < targets,
            dim * dim * targets <= raw@.len(),
            len == raw@.len(),
            m@.len() == r,
            forall|i: int| 0 <= i < r ==> (#[trigger] m@[i])@.len() == dim,
            forall|i: int, c: int|
                0 <= i < r && 0 <= c < dim ==> (#[trigger] m@[i]@[c])
                    == raw@[slot_index(dim as int, targets as int, i, c, offset as int)],
        decreases dim - r,
    {
        let mut row: Vec<X> = Vec::new();
        let mut c: usize = 0;
        while c < dim
            invariant
                r < dim,
                c <= dim,
                offset < targets,
                dim * dim * targets <= raw@.len(),
                len == raw@.len(),
                row@.len() == c,
                forall|j: int| 0 <= j < c ==> (#[trigger] row@[j])
                    == raw@[slot_index(dim as int, targets as int, r as int, j, offset as int)],
            decreases dim - c,
        {
            proof {
                lemma_zone_in_bounds(dim as int, r as int, c as int);
                lemma_slot_in_bounds(dim as int, targets as int, r as int, c as int, offset as int);
            }
            let v: X = raw[(r * dim + c) * targets + offset];
            row.push(v);
            c += 1;
        }
        m.push(row);
        r += 1;
    }
    m
}


/// Converts the distance matrix of target slot `offset`.
fn into_distance_matrix(raw: &Vec<i16>, dim: usize, targets: usize, offset: usize) -> (m: Vec<Vec<u16>>)
    requires
        dim * dim * targets <= raw@.len(),
        offset < targets,
        distances_non_negative(raw@, dim * dim * targets),
    ensures
        is_distance_matrix(m, raw@, dim as int, targets as int, offset as int),
{
    let len: usize = raw.len();
    let mut m: Vec<Vec<u16>> = Vec::new();
    let mut r: usize = 0;
    while r < dim
        invariant
            r <= dim,
            offset < targets,
            dim * dim * targets <= raw@.len(),
            len == raw@.len(),
            distances_non_negative(raw@, dim * dim * targets),
            m@.len() == r,
            forall|i: int| 0 <= i < r ==> (#[trigger] m@[i])@.len() == dim,
            forall|i: int, c: int|
                0 <= i < r && 0 <= c < dim ==> (#[trigger] m@[i]@[c]) as int
                    == raw@[slot_index(dim as int, targets as int, i, c, offset as int)] as int,
        decreases dim - r,
    {
        let mut row: Vec<u16> = Vec::new();
        let mut c: usize = 0;
        while c < dim
            invariant
                r < dim,
                c <= dim,
                offset < targets,
                dim * dim * targets <= raw@.len(),
                len == raw@.len(),
                distances_non_negative(raw@, dim * dim * targets),
                row@.len() == c,
                forall|j: int| 0 <= j < c ==> (#[trigger] row@[j]) as int
                    == raw@[slot_index(dim as int, targets as int, r as int, j, offset as int)] as int,
            decreases dim - c,
        {
            proof {
                lemma_slot_in_bounds(dim as int, targets as int, r as int, c as int, offset as int);
            }
            let v: i16 = raw[(r * dim + c) * targets + offset];
            row.push(v as u16);
            c += 1;
        }
        m.push(row);
        r += 1;
    }
    m
}

/// Classifies the status matrix of target slot `offset`.
fn into_status_matrix(raw: &Vec<u8>, dim: usize, targets: usize, offset: usize) -> (m: Vec<Vec<TargetStatus>>)
    requires
        dim * dim * targets <= raw@.len(),
        offset < targets,
        statuses_defined(raw@, dim * dim * targets),
    ensures
        is_status_matrix(m, raw@, dim as int, targets as int, offset as int),
{
    let len: usize = raw.len();
    let mut m: Vec<Vec<TargetStatus>> = Vec::new();
    let mut r: usize = 0;
    while r < dim
        invariant
            r <= dim,
            offset < targets,
            dim * dim * targets <= raw@.len(),
            len == raw@.len(),
            statuses_defined(raw@, dim * dim * targets),
            m@.len() == r,
            forall|i: int| 0 <= i < r ==> (#[trigger] m@[i])@.len() == dim,
            forall|i: int, c: int|
                0 <= i < r && 0 <= c < dim ==> (#[trigger] m@[i]@[c])
                    == status_of(raw@[slot_index(dim as int, targets as int, i, c, offset as int)]),
        decreases dim - r,
    {
        let mut row: Vec<TargetStatus> = Vec::new();
        let mut c: usize = 0;
        while c < dim
            invariant
                r < dim,
                c <= dim,
                offset < targets,
                dim * dim * targets <= raw@.len(),
                len == raw@.len(),
                statuses_defined(raw@, dim * dim * targets),
                row@.len() == c,
                forall|j: int| 0 <= j < c ==> (#[trigger] row@[j])
                    == status_of(raw@[slot_index(dim as int, targets as int, r as int, j, offset as int)]),
            decreases dim - c,
        {
            proof {
                lemma_slot_in_bounds(dim as int, targets as int, r as int, c as int, offset as int);
            }
            let v: u8 = raw[(r * dim + c) * targets + offset];
            row.push(TargetStatus::from_uld(v));
            c += 1;
        }
        m.push(row);
        r += 1;
    }
    m
}


/// Every entry of the `dim` x `dim` matrix `m` is `v`.
pub open spec fn is_filled<X>(m: Vec<Vec<X>>, dim: int, v: X) -> bool {
    &&& m@.len() == dim
    &&& forall|r: int| 0 <= r < dim ==> (#[trigger] m@[r])@.len() == dim
    &&& forall|r: int, c: int| 0 <= r < dim && 0 <= c < dim ==> (#[trigger] m@[r]@[c]) == v
}

/// `targets` matrices of `dim` x `dim` entries, each entry `v`.
pub open spec fn is_filled_layers<X>(m: Vec<Vec<Vec<X>>>, targets: int, dim: int, v: X) -> bool {
    &&& m@.len() == targets
    &&& forall|t: int| 0 <= t < targets ==> is_filled(#[trigger] m@[t], dim, v)
}

/// A `dim` x `dim` matrix with every entry `v`.
fn filled<X: Copy>(dim: usize, v: X) -> (m: Vec<Vec<X>>)
    ensures
        is_filled(m, dim as int, v),
{
    let mut m: Vec<Vec<X>> = Vec::new();
    let mut r: usize = 0;
    while r < dim
        invariant
            r <= dim,
            m@.len() == r,
            forall|i: int| 0 <= i < r ==> (#[trigger] m@[i])@.len() == dim,
            forall|i: int, c: int| 0 <= i < r && 0 <= c < dim ==> (#[trigger] m@[i]@[c]) == v,
        decreases dim - r,
    {
        let mut row: Vec<X> = Vec::new();
        let mut c: usize = 0;
        while c < dim
            invariant
                c <= dim,
                row@.len() == c,
                forall|j: int| 0 <= j < c ==> (#[trigger] row@[j]) == v,
            decreases dim - c,
        {
            row.push(v);
            c += 1;
        }
        m.push(row);
        r += 1;
    }
    m
}

/// `targets` matrices of `dim` x `dim` entries, every entry `v`.
fn filled_layers<X: Copy>(targets: usize, dim: usize, v: X) -> (m: Vec<Vec<Vec<X>>>)
    ensures
        is_filled_layers(m, targets as int, dim as int, v),
{
    let mut m: Vec<Vec<Vec<X>>> = Vec::new();
    let mut t: usize = 0;
    while t < targets
        invariant
            t <= targets,
            m@.len() == t,
            forall|i: int| 0 <= i < t ==> is_filled(#[trigger] m@[i], dim as int, v),
        decreases targets - t,
    {
        m.push(filled(dim, v));
        t += 1;
    }
    m
}

/// The results of one ranging cycle of one sensor, as matrices.
///
/// Zone matrices are indexed `[row][column]`; target matrices
/// `[target][row][column]`, target 0 being the first slot the sensor reports
/// for that zone. `DIM` is the grid resolution (4 or 8) and `TARGETS` the
/// number of target slots per zone (1 to 4).
#[derive(Clone, Debug)]
pub struct ResultsData<const DIM: usize, const TARGETS: usize> {
    pub ambient_per_spad: Vec<Vec<u32>>,
    pub spads_enabled: Vec<Vec<u32>>,
    pub targets_detected: Vec<Vec<u8>>,
    pub target_status: Vec<Vec<Vec<TargetStatus>>>,
    pub distance_mm: Vec<Vec<Vec<u16>>>,
    pub range_sigma_mm: Vec<Vec<Vec<u16>>>,
    pub reflectance: Vec<Vec<Vec<u8>>>,
    pub signal_per_spad: Vec<Vec<Vec<u32>>>,
}

impl<const DIM: usize, const TARGETS: usize> ResultsData<DIM, TARGETS> {
    /// `raw` holds enough data for this shape, and the part of it that is
    /// read has no negative distance and no undefined status.
    pub open spec fn decodable(raw: RawResults) -> bool {
        let zones = DIM * DIM;
        let slots = DIM * DIM * TARGETS;
        &&& raw.ambient_per_spad@.len() >= zones
        &&& raw.nb_spads_enabled@.len() >= zones
        &&& raw.nb_target_detected@.len() >= zones
        &&& raw.target_status@.len() >= slots
        &&& raw.distance_mm@.len() >= slots
        &&& raw.range_sigma_mm@.len() >= slots
        &&& raw.reflectance@.len() >= slots
        &&& raw.signal_per_spad@.len() >= slots
        &&& distances_non_negative(raw.distance_mm@, slots)
        &&& statuses_defined(raw.target_status@, slots)
    }

    /// Every matrix of `self` is the one laid out in `raw`.
    pub open spec fn decoded_from(self, raw: RawResults) -> bool {
        let d = DIM as int;
        let n = TARGETS as int;
        &&& is_zone_matrix(self.ambient_per_spad, raw.ambient_per_spad@, d)
        &&& is_zone_matrix(self.spads_enabled, raw.nb_spads_enabled@, d)
        &&& is_zone_matrix(self.targets_detected, raw.nb_target_detected@, d)
        &&& self.target_status@.len() == n
        &&& forall|t: int| 0 <= t < n ==> is_status_matrix(#[trigger] self.target_status@[t], raw.target_status@, d, n, t)
        &&& self.distance_mm@.len() == n
        &&& forall|t: int| 0 <= t < n ==> is_distance_matrix(#[trigger] self.distance_mm@[t], raw.distance_mm@, d, n, t)
        &&& is_target_matrices(self.range_sigma_mm, raw.range_sigma_mm@, d, n)
        &&& is_target_matrices(self.reflectance, raw.reflectance@, d, n)
        &&& is_target_matrices(self.signal_per_spad, raw.signal_per_spad@, d, n)
    }

    /// Every matrix has its shape and holds zeros; statuses are `Other(0)`.
    pub open spec fn is_empty(self) -> bool {
        let d = DIM as int;
        let n = TARGETS as int;
        &&& is_filled(self.ambient_per_spad, d, 0u32)
        &&& is_filled(self.spads_enabled, d, 0u32)
        &&& is_filled(self.targets_detected, d, 0u8)
        &&& is_filled_layers(self.target_status, n, d, TargetStatus::Other(0))
        &&& is_filled_layers(self.distance_mm, n, d, 0u16)
        &&& is_filled_layers(self.range_sigma_mm, n, d, 0u16)
        &&& is_filled_layers(self.reflectance, n, d, 0u8)
        &&& is_filled_layers(self.signal_per_spad, n, d, 0u32)
    }

    /// A result of the right shape with every value zero.
    pub fn empty() -> (r: Self)
        ensures
            r.is_empty(),
    {
        ResultsData {
            ambient_per_spad: filled(DIM, 0u32),
            spads_enabled: filled(DIM, 0u32),
            targets_detected: filled(DIM, 0u8),
            target_status: filled_layers(TARGETS, DIM, TargetStatus::Other(0)),
            distance_mm: filled_layers(TARGETS, DIM, 0u16),
            range_sigma_mm: filled_layers(TARGETS, DIM, 0u16),
            reflectance: filled_layers(TARGETS, DIM, 0u8),
            signal_per_spad: filled_layers(TARGETS, DIM, 0u32),
        }
    }

    /// Overwrites every matrix with the data of `raw`; returns the sensor
    /// temperature of that cycle.
    fn feed(&mut self, raw: &RawResults) -> (temp: TempC)
        requires
            Self::decodable(*raw),
        ensures
            final(self).decoded_from(*raw),
            temp == TempC(raw.silicon_temp_degc),
    {
        self.ambient_per_spad = into_matrix(&raw.ambient_per_spad, DIM);
        self.spads_enabled = into_matrix(&raw.nb_spads_enabled, DIM);
        self.targets_detected = into_matrix(&raw.nb_target_detected, DIM);

        let d = Ghost(DIM as int);
        let n = Ghost(TARGETS as int);
        let mut status: Vec<Vec<Vec<TargetStatus>>> = Vec::new();
        let mut distance: Vec<Vec<Vec<u16>>> = Vec::new();
        let mut sigma: Vec<Vec<Vec<u16>>> = Vec::new();
        let mut reflectance: Vec<Vec<Vec<u8>>> = Vec::new();
        let mut signal: Vec<Vec<Vec<u32>>> = Vec::new();
        let mut i: usize = 0;
        while i < TARGETS
            invariant
                i <= TARGETS,
                d@ == DIM,
                n@ == TARGETS,
                Self::decodable(*raw),
                status@.len() == i,
                distance@.len() == i,
                sigma@.len() == i,
                reflectance@.len() == i,
                signal@.len() == i,
                forall|t: int| 0 <= t < i ==> is_status_matrix(#[trigger] status@[t], raw.target_status@, d@, n@, t),
                forall|t: int| 0 <= t < i ==> is_distance_matrix(#[trigger] distance@[t], raw.distance_mm@, d@, n@, t),
                forall|t: int| 0 <= t < i ==> is_slot_matrix(#[trigger] sigma@[t], raw.range_sigma_mm@, d@, n@, t),
                forall|t: int| 0 <= t < i ==> is_slot_matrix(#[trigger] reflectance@[t], raw.reflectance@, d@, n@, t),
                forall|t: int| 0 <= t < i ==> is_slot_matrix(#[trigger] signal@[t], raw.signal_per_spad@, d@, n@, t),
            decreases TARGETS - i,
        {
            status.push(into_status_matrix(&raw.target_status, DIM, TARGETS, i));
            distance.push(into_distance_matrix(&raw.distance_mm, DIM, TARGETS, i));
            sigma.push(into_matrix_o(&raw.range_sigma_mm, DIM, TARGETS, i));
            reflectance.push(into_matrix_o(&raw.reflectance, DIM, TARGETS, i));
            signal.push(into_matrix_o(&raw.signal_per_spad, DIM, TARGETS, i));
            i += 1;
        }
        self.target_status = status;
        self.distance_mm = distance;
        self.range_sigma_mm = sigma;
        self.reflectance = reflectance;
        self.signal_per_spad = signal;

        TempC(raw.silicon_temp_degc)
    }

    /// Whether `raw` can be decoded into this shape: its buffers are long
    /// enough, and what is read of them holds no negative distance and no
    /// undefined status.
    pub fn accepts(raw: &RawResults) -> (r: bool)
        ensures
            r == Self::decodable(*raw),
    {
        // No buffer is longer than usize::MAX, so a shape whose size
        // overflows cannot be decoded.
        let ambient_len: usize = raw.ambient_per_spad.len();
        let status_len: usize = raw.target_status.len();
        let zones: usize = match DIM.checked_mul(DIM) {
            Some(z) => z,
            None => return false,
        };
        let slots: usize = match zones.checked_mul(TARGETS) {
            Some(z) => z,
            None => return false,
        };
        if raw.ambient_per_spad.len() < zones || raw.nb_spads_enabled.len() < zones
            || raw.nb_target_detected.len() < zones || raw.target_status.len() < slots
            || raw.distance_mm.len() < slots || raw.range_sigma_mm.len() < slots
            || raw.reflectance.len() < slots || raw.signal_per_spad.len() < slots {
            return false;
        }
        let mut i: usize = 0;
        while i < slots
            invariant
                i <= slots,
                slots == DIM * DIM * TARGETS,
                slots <= raw.distance_mm@.len(),
                slots <= raw.target_status@.len(),
                distances_non_negative(raw.distance_mm@, i as int),
                statuses_defined(raw.target_status@, i as int),
            decreases slots - i,
        {
            if raw.distance_mm[i] < 0 || !(raw.target_status[i] <= 13 || raw.target_status[i] == 255) {
                return false;
            }
            i += 1;
        }
        true
    }

    /// Decodes one ranging cycle: the matrices laid out in `raw`, and the
    /// sensor temperature, passed through unchanged.
    pub fn from(raw: &RawResults) -> (r: (Self, TempC))
        requires
            Self::decodable(*raw),
        ensures
            r.0.decoded_from(*raw),
            r.1 == TempC(raw.silicon_temp_degc),
    {
        let mut x = Self::empty();
        let temp = x.feed(raw);
        (x, temp)
    }
}


/// `m` has `targets` matrices of `dim` x `dim` entries.
pub open spec fn is_layered<X>(m: Seq<Seq<Seq<X>>>, dim: int, targets: int) -> bool {
    &&& m.len() == targets
    &&& forall|t: int| 0 <= t < targets ==> (#[trigger] m[t]).len() == dim
    &&& forall|t: int, r: int| 0 <= t < targets && 0 <= r < dim ==> (#[trigger] m[t][r]).len() == dim
}

/// The target buffer holding the matrices `m` (indexed target, row, column)
/// in the vendor order: zone by zone, each zone's target slots together.
pub open spec fn slot_layout<X>(m: Seq<Seq<Seq<X>>>, dim: int, targets: int) -> Seq<X> {
    Seq::new((dim * dim * targets) as nat, |i: int| m[i % targets][(i / targets) / dim][(i / targets) % dim])
}

/// The layout entry of target `t` of zone (`r`, `c`) comes from `m[t][r][c]`.
proof fn lemma_slot_layout_at<X>(m: Seq<Seq<Seq<X>>>, dim: int, targets: int, r: int, c: int, t: int)
    requires
        0 <= r < dim,
        0 <= c < dim,
        0 <= t < targets,
    ensures
        0 <= slot_index(dim, targets, r, c, t) < dim * dim * targets,
        slot_layout(m, dim, targets)[slot_index(dim, targets, r, c, t)] == m[t][r][c],
{
    lemma_slot_in_bounds(dim, targets, r, c, t);
    let z = zone_index(dim, r, c);
    let i = slot_index(dim, targets, r, c, t);
    lemma_fundamental_div_mod_converse(i, targets, z, t);
    lemma_fundamental_div_mod_converse(z, dim, r, c);
}

/// Decoding a buffer that lays out known distance matrices in the vendor
/// order gives back exactly those matrices: every target, row and column
/// keeps its place.
pub proof fn lemma_distance_round_trip<const DIM: usize, const TARGETS: usize>(
    m: Seq<Seq<Seq<u16>>>,
    raw: RawResults,
    decoded: ResultsData<DIM, TARGETS>,
)
    requires
        is_layered(m, DIM as int, TARGETS as int),
        raw.distance_mm@.len() >= DIM * DIM * TARGETS,
        forall|i: int| 0 <= i < DIM * DIM * TARGETS ==>
            (#[trigger] raw.distance_mm@[i]) as int == slot_layout(m, DIM as int, TARGETS as int)[i] as int,
        decoded.decoded_from(raw),
    ensures
        forall|t: int, r: int, c: int|
            0 <= t < TARGETS && 0 <= r < DIM && 0 <= c < DIM ==> (#[trigger] decoded.distance_mm@[t]@[r]@[c]) == m[t][r][c],
{
    assert forall|t: int, r: int, c: int|
        0 <= t < TARGETS && 0 <= r < DIM && 0 <= c < DIM implies (#[trigger] decoded.distance_mm@[t]@[r]@[c]) == m[t][r][c] by {
        lemma_slot_layout_at(m, DIM as int, TARGETS as int, r, c, t);
        let i = slot_index(DIM as int, TARGETS as int, r, c, t);
        assert(is_distance_matrix(decoded.distance_mm@[t], raw.distance_mm@, DIM as int, TARGETS as int, t));
        assert(decoded.distance_mm@[t]@[r]@[c] as int == raw.distance_mm@[i] as int);
    }
}

} // verus!
