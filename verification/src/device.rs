//! Hardware devices and rigs: their names, limits and axes, and the classes of
//! thermal load.
use crate::axis::AxisChannel;
use vstd::prelude::*;

verus! {

/// Supported physical device types
#[derive(Debug, Clone, Copy, PartialEq, Eq, Structural)]
pub enum DeviceType {
    TheHandy,
    OSR2Plus,
    SR6,
    Keon,
    Custom,
}

impl DeviceType {
    pub const ALL: [DeviceType; 5] = [
        DeviceType::TheHandy,
        DeviceType::OSR2Plus,
        DeviceType::SR6,
        DeviceType::Keon,
        DeviceType::Custom,
    ];

    pub fn display_name(&self) -> (name: &'static str)
        ensures
            name@ == device_label(*self),
    {
        match self {
            DeviceType::TheHandy => "The Handy (1-DOF Linear)",
            DeviceType::OSR2Plus => "OSR2+ (3-DOF Stroke, Pitch, Roll)",
            DeviceType::SR6 => "SR6 (6-DOF Stewart Platform)",
            DeviceType::Keon => "Fleshlight Keon (Reciprocating)",
            DeviceType::Custom => "Custom Device Profile",
        }
    }
}

/// The bits of 95.0
pub const BITS_95: u32 = 0x42be0000;

/// The bits of 110.0
pub const BITS_110: u32 = 0x42dc0000;

/// The bits of 120.0
pub const BITS_120: u32 = 0x42f00000;

/// The bits of 130.0
pub const BITS_130: u32 = 0x43020000;

/// The bits of 350.0
pub const BITS_350: u32 = 0x43af0000;

/// The bits of 450.0
pub const BITS_450: u32 = 0x43e10000;

/// The bits of 500.0
pub const BITS_500: u32 = 0x43fa0000;

/// The bits of 550.0
pub const BITS_550: u32 = 0x44098000;

/// The bits of 3000.0
pub const BITS_3000: u32 = 0x453b8000;

/// The bits of 4000.0
pub const BITS_4000: u32 = 0x457a0000;

/// The bits of 4500.0
pub const BITS_4500: u32 = 0x458ca000;

/// The bits of 5500.0
pub const BITS_5500: u32 = 0x45abe000;

/// The bits of 6000.0
pub const BITS_6000: u32 = 0x45bb8000;

/// The bits of 60000.0
pub const BITS_60000: u32 = 0x476a6000;

/// The bits of 75000.0
pub const BITS_75000: u32 = 0x47927c00;

/// The bits of 80000.0
pub const BITS_80000: u32 = 0x479c4000;

/// The bits of 90000.0
pub const BITS_90000: u32 = 0x47afc800;

/// The bits of 100000.0
pub const BITS_100000: u32 = 0x47c35000;

/// Physical kinematic limit bounds, by the bits of their floating-point numbers
#[derive(Debug, Clone, Copy, PartialEq, Eq, Structural)]
pub struct KinematicLimits {
    /// Maximum velocity in script units/sec (0-100 scale, typically 400-500)
    pub max_speed_units_per_sec_bits: u32,
    /// Maximum acceleration in script units/sec² (typically 3000-6000)
    pub max_accel_units_per_sec2_bits: u32,
    /// Maximum jerk in script units/sec³ (typically 50,000-100,000)
    pub max_jerk_units_per_sec3_bits: u32,
    /// Stroke length in millimeters (e.g. 110 mm for Handy)
    pub physical_stroke_mm_bits: u32,
}

/// The limits with these numbers.
pub open spec fn limits(speed: u32, accel: u32, jerk: u32, stroke: u32) -> KinematicLimits {
    KinematicLimits {
        max_speed_units_per_sec_bits: speed,
        max_accel_units_per_sec2_bits: accel,
        max_jerk_units_per_sec3_bits: jerk,
        physical_stroke_mm_bits: stroke,
    }
}

impl Default for KinematicLimits {
    fn default() -> (res: Self)
        ensures
            res == limits(BITS_450, BITS_4500, BITS_80000, BITS_110),
    {
        KinematicLimits {
            max_speed_units_per_sec_bits: BITS_450,
            max_accel_units_per_sec2_bits: BITS_4500,
            max_jerk_units_per_sec3_bits: BITS_80000,
            physical_stroke_mm_bits: BITS_110,
        }
    }
}

/// Profile characterizing a specific hardware device
#[derive(Debug)]
pub struct DeviceProfile {
    pub device_type: DeviceType,
    pub name: String,
    pub limits: KinematicLimits,
    pub supported_axes: Vec<AxisChannel>,
}

/// What a device is called in a list.
pub open spec fn device_label(device_type: DeviceType) -> Seq<char> {
    match device_type {
        DeviceType::TheHandy => "The Handy (1-DOF Linear)"@,
        DeviceType::OSR2Plus => "OSR2+ (3-DOF Stroke, Pitch, Roll)"@,
        DeviceType::SR6 => "SR6 (6-DOF Stewart Platform)"@,
        DeviceType::Keon => "Fleshlight Keon (Reciprocating)"@,
        DeviceType::Custom => "Custom Device Profile"@,
    }
}

/// The name of a device.
pub open spec fn device_name(device_type: DeviceType) -> Seq<char> {
    match device_type {
        DeviceType::TheHandy => "The Handy"@,
        DeviceType::OSR2Plus => "OSR2+"@,
        DeviceType::SR6 => "SR6"@,
        DeviceType::Keon => "Fleshlight Keon"@,
        DeviceType::Custom => "Custom Device"@,
    }
}

/// What a device can stand.
pub open spec fn device_limits(device_type: DeviceType) -> KinematicLimits {
    match device_type {
        DeviceType::TheHandy => limits(BITS_450, BITS_4000, BITS_75000, BITS_110),
        DeviceType::OSR2Plus => limits(BITS_500, BITS_5500, BITS_90000, BITS_120),
        DeviceType::SR6 => limits(BITS_550, BITS_6000, BITS_100000, BITS_130),
        DeviceType::Keon => limits(BITS_350, BITS_3000, BITS_60000, BITS_95),
        DeviceType::Custom => limits(BITS_450, BITS_4500, BITS_80000, BITS_110),
    }
}

/// The axes that a device moves on.
pub open spec fn device_axes(device_type: DeviceType) -> Seq<AxisChannel> {
    match device_type {
        DeviceType::TheHandy => seq![AxisChannel::Stroke],
        DeviceType::OSR2Plus => seq![
            AxisChannel::Stroke,
            AxisChannel::Pitch,
            AxisChannel::Roll,
            AxisChannel::Suction,
        ],
        DeviceType::SR6 => all_axes(),
        DeviceType::Keon => seq![AxisChannel::Stroke],
        DeviceType::Custom => all_axes(),
    }
}

/// Every axis, in the listed order.
pub open spec fn all_axes() -> Seq<AxisChannel> {
    seq![
        AxisChannel::Stroke,
        AxisChannel::Surge,
        AxisChannel::Sway,
        AxisChannel::Pitch,
        AxisChannel::Roll,
        AxisChannel::Twist,
        AxisChannel::Suction,
    ]
}

impl DeviceProfile {
    pub fn for_device(device_type: DeviceType) -> (res: Self)
        ensures
            res.device_type == device_type,
            res.name@ == device_name(device_type),
            res.limits == device_limits(device_type),
            res.supported_axes@ == device_axes(device_type),
    {
        let (name, limits): (&str, KinematicLimits) = match device_type {
            DeviceType::TheHandy => (
                "The Handy",
                KinematicLimits {
                    max_speed_units_per_sec_bits: BITS_450,
                    max_accel_units_per_sec2_bits: BITS_4000,
                    max_jerk_units_per_sec3_bits: BITS_75000,
                    physical_stroke_mm_bits: BITS_110,
                },
            ),
            DeviceType::OSR2Plus => (
                "OSR2+",
                KinematicLimits {
                    max_speed_units_per_sec_bits: BITS_500,
                    max_accel_units_per_sec2_bits: BITS_5500,
                    max_jerk_units_per_sec3_bits: BITS_90000,
                    physical_stroke_mm_bits: BITS_120,
                },
            ),
            DeviceType::SR6 => (
                "SR6",
                KinematicLimits {
                    max_speed_units_per_sec_bits: BITS_550,
                    max_accel_units_per_sec2_bits: BITS_6000,
                    max_jerk_units_per_sec3_bits: BITS_100000,
                    physical_stroke_mm_bits: BITS_130,
                },
            ),
            DeviceType::Keon => (
                "Fleshlight Keon",
                KinematicLimits {
                    max_speed_units_per_sec_bits: BITS_350,
                    max_accel_units_per_sec2_bits: BITS_3000,
                    max_jerk_units_per_sec3_bits: BITS_60000,
                    physical_stroke_mm_bits: BITS_95,
                },
            ),
            DeviceType::Custom => ("Custom Device", KinematicLimits::default()),
        };
        let supported_axes: Vec<AxisChannel> = match device_type {
            DeviceType::TheHandy => vec![AxisChannel::Stroke],
            DeviceType::OSR2Plus => vec![
                AxisChannel::Stroke,
                AxisChannel::Pitch,
                AxisChannel::Roll,
                AxisChannel::Suction,
            ],
            DeviceType::Keon => vec![AxisChannel::Stroke],
            _ => vec![
                AxisChannel::Stroke,
                AxisChannel::Surge,
                AxisChannel::Sway,
                AxisChannel::Pitch,
                AxisChannel::Roll,
                AxisChannel::Twist,
                AxisChannel::Suction,
            ],
        };
        assert(supported_axes@ =~= device_axes(device_type));
        DeviceProfile { device_type, name: name.to_owned(), limits, supported_axes }
    }
}

/// Supported hardware robotic rig architectures.
#[derive(Debug, Clone, Copy, PartialEq, Eq, Structural)]
pub enum RigModel {
    OSR2,
    SR6,
}

impl Default for RigModel {
    fn default() -> (res: Self)
        ensures
            res == RigModel::OSR2,
    {
        RigModel::OSR2
    }
}

impl RigModel {
    pub const ALL: [RigModel; 2] = [RigModel::OSR2, RigModel::SR6];

    pub fn display_name(&self) -> (name: &'static str)
        ensures
            name@ == (match *self {
                RigModel::OSR2 => "OSR2 (3-Axis Pitch/Roll)"@,
                RigModel::SR6 => "SR6 (6-DOF Full Stewart)"@,
            }),
    {
        match self {
            RigModel::OSR2 => "OSR2 (3-Axis Pitch/Roll)",
            RigModel::SR6 => "SR6 (6-DOF Full Stewart)",
        }
    }
}

/// How warm the motor runs.
#[derive(Debug, Clone, Copy, PartialEq, Eq, Structural)]
pub enum ThermalStatus {
    Normal,
    Warm,
    Throttling,
}

impl ThermalStatus {
    pub fn badge(&self) -> (text: &'static str)
        ensures
            text@ == (match *self {
                ThermalStatus::Normal => "NORMAL"@,
                ThermalStatus::Warm => "WARMING"@,
                ThermalStatus::Throttling => "COOLING_DOWN"@,
            }),
    {
        match self {
            ThermalStatus::Normal => "NORMAL",
            ThermalStatus::Warm => "WARMING",
            ThermalStatus::Throttling => "COOLING_DOWN",
        }
    }

    /// The class of a load, given whether it has reached the limit for
    /// throttling and the limit for a warning.
    pub fn classify(at_throttle_limit: bool, at_warm_limit: bool) -> (status: ThermalStatus)
        ensures
            status == (if at_throttle_limit {
                ThermalStatus::Throttling
            } else if at_warm_limit {
                ThermalStatus::Warm
            } else {
                ThermalStatus::Normal
            }),
    {
        if at_throttle_limit {
            ThermalStatus::Throttling
        } else if at_warm_limit {
            ThermalStatus::Warm
        } else {
            ThermalStatus::Normal
        }
    }
}

/// Every device strokes; the one with three degrees of freedom also tilts and sucks, and the
/// platform moves on every axis.
pub proof fn lemma_device_axes(device_type: DeviceType, axis: AxisChannel)
    ensures
        device_axes(device_type).contains(axis) <==> axis is Stroke || device_type is SR6
            || device_type is Custom || (device_type is OSR2Plus && (axis is Pitch || axis is Roll
            || axis is Suction)),
{
    let axes = device_axes(device_type);
    assert(axes[0] == AxisChannel::Stroke);
    if device_type is OSR2Plus {
        assert(axes[1] == AxisChannel::Pitch);
        assert(axes[2] == AxisChannel::Roll);
        assert(axes[3] == AxisChannel::Suction);
    } else if device_type is SR6 || device_type is Custom {
        assert(axes[1] == AxisChannel::Surge);
        assert(axes[2] == AxisChannel::Sway);
        assert(axes[3] == AxisChannel::Pitch);
        assert(axes[4] == AxisChannel::Roll);
        assert(axes[5] == AxisChannel::Twist);
        assert(axes[6] == AxisChannel::Suction);
    }
}

} // verus!
