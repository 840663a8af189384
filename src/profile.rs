//! The catalogue of message types, field names and enum translations of the FIT profile.

use vstd::prelude::*;

verus! {

/// A message type: its global number and display name.
#[derive(Clone, Copy, Debug)]
pub struct MessageType {
    pub number: u16,
    pub name: &'static str,
}

/// The catalogued message type with number `i`; a number missing from the catalogue keeps
/// its number under the name "Unknown".
pub open spec fn message_type_of(i: u16) -> MessageType {
    match i {
        0 => MessageType { number: 0, name: "File Id" },
        1 => MessageType { number: 1, name: "Capabilities" },
        2 => MessageType { number: 2, name: "Device settings" },
        3 => MessageType { number: 3, name: "User profile" },
        4 => MessageType { number: 4, name: "HRM profile" },
        5 => MessageType { number: 5, name: "SDM profile" },
        6 => MessageType { number: 6, name: "Bike profile" },
        7 => MessageType { number: 7, name: "Zones target" },
        8 => MessageType { number: 8, name: "HR zone" },
        9 => MessageType { number: 9, name: "Power zone" },
        10 => MessageType { number: 10, name: "MET zone" },
        12 => MessageType { number: 12, name: "Sport" },
        15 => MessageType { number: 15, name: "Goal" },
        18 => MessageType { number: 18, name: "Session" },
        19 => MessageType { number: 19, name: "Lap" },
        20 => MessageType { number: 20, name: "Record" },
        21 => MessageType { number: 21, name: "Event" },
        23 => MessageType { number: 23, name: "Device info" },
        26 => MessageType { number: 26, name: "Workout" },
        27 => MessageType { number: 27, name: "Workout step" },
        28 => MessageType { number: 28, name: "Schedule" },
        30 => MessageType { number: 30, name: "Weight scale" },
        31 => MessageType { number: 31, name: "Course" },
        32 => MessageType { number: 32, name: "Course point" },
        33 => MessageType { number: 33, name: "Totals" },
        34 => MessageType { number: 34, name: "Activity" },
        35 => MessageType { number: 35, name: "Software" },
        37 => MessageType { number: 37, name: "File capabilities" },
        38 => MessageType { number: 38, name: "Message capabilities" },
        39 => MessageType { number: 39, name: "Field capabilities" },
        49 => MessageType { number: 49, name: "File creator" },
        51 => MessageType { number: 51, name: "Blood pressure" },
        53 => MessageType { number: 53, name: "Speed zone" },
        55 => MessageType { number: 55, name: "Monitoring" },
        72 => MessageType { number: 72, name: "Training file" },
        78 => MessageType { number: 78, name: "HRV" },
        80 => MessageType { number: 80, name: "ANT rx" },
        81 => MessageType { number: 81, name: "ANT tx" },
        82 => MessageType { number: 82, name: "ANT channel id" },
        101 => MessageType { number: 101, name: "Length" },
        103 => MessageType { number: 103, name: "Monitoring info" },
        105 => MessageType { number: 105, name: "Pad" },
        106 => MessageType { number: 106, name: "Slave device" },
        127 => MessageType { number: 127, name: "Connectivity" },
        128 => MessageType { number: 128, name: "Weather conditions" },
        129 => MessageType { number: 129, name: "Weather alert" },
        131 => MessageType { number: 131, name: "Cadence zone" },
        132 => MessageType { number: 132, name: "HR" },
        142 => MessageType { number: 142, name: "Segment lap" },
        145 => MessageType { number: 145, name: "Memo glob" },
        148 => MessageType { number: 148, name: "Segment id" },
        149 => MessageType { number: 149, name: "Segment leaderboard entry" },
        150 => MessageType { number: 150, name: "Segment point" },
        151 => MessageType { number: 151, name: "Segment file" },
        158 => MessageType { number: 158, name: "Workout session" },
        159 => MessageType { number: 159, name: "Watchface settings" },
        160 => MessageType { number: 160, name: "GPS Metadata" },
        161 => MessageType { number: 161, name: "Camera event" },
        162 => MessageType { number: 162, name: "Timestamp correlation" },
        164 => MessageType { number: 164, name: "Gyroscope data" },
        165 => MessageType { number: 165, name: "Accelerometer data" },
        167 => MessageType { number: 167, name: "3D sensor calibration" },
        169 => MessageType { number: 169, name: "Video frame" },
        174 => MessageType { number: 174, name: "OBD II data" },
        177 => MessageType { number: 177, name: "NMEA sentence" },
        178 => MessageType { number: 178, name: "Aviation attitude" },
        184 => MessageType { number: 184, name: "Video" },
        185 => MessageType { number: 185, name: "Video title" },
        186 => MessageType { number: 186, name: "Video description" },
        187 => MessageType { number: 187, name: "Video clip" },
        188 => MessageType { number: 188, name: "OHR settings" },
        200 => MessageType { number: 200, name: "EXD screen configuration" },
        201 => MessageType { number: 201, name: "EXD data field configuration" },
        202 => MessageType { number: 202, name: "EXD data concept configuration" },
        206 => MessageType { number: 206, name: "Field description" },
        207 => MessageType { number: 207, name: "Developer data id" },
        208 => MessageType { number: 208, name: "Magnetometer data" },
        209 => MessageType { number: 209, name: "Barometer data" },
        210 => MessageType { number: 210, name: "1D sensor calibration" },
        216 => MessageType { number: 216, name: "Time in zone" },
        225 => MessageType { number: 225, name: "Set" },
        227 => MessageType { number: 227, name: "Stress level" },
        258 => MessageType { number: 258, name: "Dive settings" },
        259 => MessageType { number: 259, name: "Dive gas" },
        262 => MessageType { number: 262, name: "Dive alarm" },
        264 => MessageType { number: 264, name: "Exercise title" },
        268 => MessageType { number: 268, name: "Dive summary" },
        285 => MessageType { number: 285, name: "Jump" },
        312 => MessageType { number: 312, name: "Split" },
        313 => MessageType { number: 313, name: "Split summary" },
        317 => MessageType { number: 317, name: "Climb pro" },
        375 => MessageType { number: 375, name: "Device AUX battery info" },
        0xFF00 => MessageType { number: 0xFF00, name: "MFG range min" },
        0xFFFE => MessageType { number: 0xFFFE, name: "MFG range max" },
        147 => MessageType { number: 147, name: "Connected devices (undocumented)" },
        _ => MessageType { number: i, name: "Unknown" },
    }
}

impl PartialEq for MessageType {
    /// Two message types are the same when their numbers are.
    fn eq(&self, other: &MessageType) -> (r: bool) {
        self.number == other.number
    }
}

impl vstd::std_specs::cmp::PartialEqSpecImpl for MessageType {
    open spec fn obeys_eq_spec() -> bool {
        true
    }

    open spec fn eq_spec(&self, other: &MessageType) -> bool {
        self.number == other.number
    }
}

impl MessageType {
    /// Looks up a message type by its global number.
    pub fn resolve(i: u16) -> (r: MessageType)
        ensures
            r == message_type_of(i),
    {
        match i {
            0 => MessageType { number: 0, name: "File Id" },
            1 => MessageType { number: 1, name: "Capabilities" },
            2 => MessageType { number: 2, name: "Device settings" },
            3 => MessageType { number: 3, name: "User profile" },
            4 => MessageType { number: 4, name: "HRM profile" },
            5 => MessageType { number: 5, name: "SDM profile" },
            6 => MessageType { number: 6, name: "Bike profile" },
            7 => MessageType { number: 7, name: "Zones target" },
            8 => MessageType { number: 8, name: "HR zone" },
            9 => MessageType { number: 9, name: "Power zone" },
            10 => MessageType { number: 10, name: "MET zone" },
            12 => MessageType { number: 12, name: "Sport" },
            15 => MessageType { number: 15, name: "Goal" },
            18 => MessageType { number: 18, name: "Session" },
            19 => MessageType { number: 19, name: "Lap" },
            20 => MessageType { number: 20, name: "Record" },
            21 => MessageType { number: 21, name: "Event" },
            23 => MessageType { number: 23, name: "Device info" },
            26 => MessageType { number: 26, name: "Workout" },
            27 => MessageType { number: 27, name: "Workout step" },
            28 => MessageType { number: 28, name: "Schedule" },
            30 => MessageType { number: 30, name: "Weight scale" },
            31 => MessageType { number: 31, name: "Course" },
            32 => MessageType { number: 32, name: "Course point" },
            33 => MessageType { number: 33, name: "Totals" },
            34 => MessageType { number: 34, name: "Activity" },
            35 => MessageType { number: 35, name: "Software" },
            37 => MessageType { number: 37, name: "File capabilities" },
            38 => MessageType { number: 38, name: "Message capabilities" },
            39 => MessageType { number: 39, name: "Field capabilities" },
            49 => MessageType { number: 49, name: "File creator" },
            51 => MessageType { number: 51, name: "Blood pressure" },
            53 => MessageType { number: 53, name: "Speed zone" },
            55 => MessageType { number: 55, name: "Monitoring" },
            72 => MessageType { number: 72, name: "Training file" },
            78 => MessageType { number: 78, name: "HRV" },
            80 => MessageType { number: 80, name: "ANT rx" },
            81 => MessageType { number: 81, name: "ANT tx" },
            82 => MessageType { number: 82, name: "ANT channel id" },
            101 => MessageType { number: 101, name: "Length" },
            103 => MessageType { number: 103, name: "Monitoring info" },
            105 => MessageType { number: 105, name: "Pad" },
            106 => MessageType { number: 106, name: "Slave device" },
            127 => MessageType { number: 127, name: "Connectivity" },
            128 => MessageType { number: 128, name: "Weather conditions" },
            129 => MessageType { number: 129, name: "Weather alert" },
            131 => MessageType { number: 131, name: "Cadence zone" },
            132 => MessageType { number: 132, name: "HR" },
            142 => MessageType { number: 142, name: "Segment lap" },
            145 => MessageType { number: 145, name: "Memo glob" },
            148 => MessageType { number: 148, name: "Segment id" },
            149 => MessageType { number: 149, name: "Segment leaderboard entry" },
            150 => MessageType { number: 150, name: "Segment point" },
            151 => MessageType { number: 151, name: "Segment file" },
            158 => MessageType { number: 158, name: "Workout session" },
            159 => MessageType { number: 159, name: "Watchface settings" },
            160 => MessageType { number: 160, name: "GPS Metadata" },
            161 => MessageType { number: 161, name: "Camera event" },
            162 => MessageType { number: 162, name: "Timestamp correlation" },
            164 => MessageType { number: 164, name: "Gyroscope data" },
            165 => MessageType { number: 165, name: "Accelerometer data" },
            167 => MessageType { number: 167, name: "3D sensor calibration" },
            169 => MessageType { number: 169, name: "Video frame" },
            174 => MessageType { number: 174, name: "OBD II data" },
            177 => MessageType { number: 177, name: "NMEA sentence" },
            178 => MessageType { number: 178, name: "Aviation attitude" },
            184 => MessageType { number: 184, name: "Video" },
            185 => MessageType { number: 185, name: "Video title" },
            186 => MessageType { number: 186, name: "Video description" },
            187 => MessageType { number: 187, name: "Video clip" },
            188 => MessageType { number: 188, name: "OHR settings" },
            200 => MessageType { number: 200, name: "EXD screen configuration" },
            201 => MessageType { number: 201, name: "EXD data field configuration" },
            202 => MessageType { number: 202, name: "EXD data concept configuration" },
            206 => MessageType { number: 206, name: "Field description" },
            207 => MessageType { number: 207, name: "Developer data id" },
            208 => MessageType { number: 208, name: "Magnetometer data" },
            209 => MessageType { number: 209, name: "Barometer data" },
            210 => MessageType { number: 210, name: "1D sensor calibration" },
            216 => MessageType { number: 216, name: "Time in zone" },
            225 => MessageType { number: 225, name: "Set" },
            227 => MessageType { number: 227, name: "Stress level" },
            258 => MessageType { number: 258, name: "Dive settings" },
            259 => MessageType { number: 259, name: "Dive gas" },
            262 => MessageType { number: 262, name: "Dive alarm" },
            264 => MessageType { number: 264, name: "Exercise title" },
            268 => MessageType { number: 268, name: "Dive summary" },
            285 => MessageType { number: 285, name: "Jump" },
            312 => MessageType { number: 312, name: "Split" },
            313 => MessageType { number: 313, name: "Split summary" },
            317 => MessageType { number: 317, name: "Climb pro" },
            375 => MessageType { number: 375, name: "Device AUX battery info" },
            0xFF00 => MessageType { number: 0xFF00, name: "MFG range min" },
            0xFFFE => MessageType { number: 0xFFFE, name: "MFG range max" },
            147 => MessageType { number: 147, name: "Connected devices (undocumented)" },
            _ => MessageType { number: i, name: "Unknown" },
        }
    }
}

/// How the raw byte of an enum field is given a name.
#[derive(Clone, Copy, Debug, PartialEq, Eq, Structural)]
pub enum EnumTranslation {
    NoTranslation,
    FileType,
    Sport,
}

/// Whether a field is catalogued, missing from the catalogue, or declared by a developer.
#[derive(Clone, Copy, Debug, PartialEq, Eq, Structural)]
pub enum FieldKind {
    Known,
    Unknown,
    Developer,
}

/// A field of a message type: its number, name and how its enum values are named.
#[derive(Clone, Copy, Debug)]
pub struct Field {
    pub number: u8,
    pub name: &'static str,
    pub message_type: MessageType,
    pub translation: EnumTranslation,
    pub kind: FieldKind,
}

/// The name and translation that the catalogue gives field `f` of message type `m`.
pub open spec fn catalog_entry(m: u16, f: u8) -> Option<(&'static str, EnumTranslation)> {
    match (m, f) {
        (0, 0) => Some(("Type", EnumTranslation::FileType)),
        (0, 1) => Some(("Manufacturer", EnumTranslation::NoTranslation)),
        (0, 2) => Some(("Product", EnumTranslation::NoTranslation)),
        (0, 3) => Some(("Serial number", EnumTranslation::NoTranslation)),
        (0, 4) => Some(("Time created", EnumTranslation::NoTranslation)),
        (0, 5) => Some(("Number", EnumTranslation::NoTranslation)),
        (0, 8) => Some(("Product name", EnumTranslation::NoTranslation)),
        (1, 0) => Some(("Languages", EnumTranslation::NoTranslation)),
        (1, 1) => Some(("Sports", EnumTranslation::NoTranslation)),
        (1, 21) => Some(("Workouts supported", EnumTranslation::NoTranslation)),
        (2, 0) => Some(("Active time zone", EnumTranslation::NoTranslation)),
        (2, 1) => Some(("UTC offset", EnumTranslation::NoTranslation)),
        (2, 2) => Some(("Time offset", EnumTranslation::NoTranslation)),
        (2, 4) => Some(("Time mode", EnumTranslation::NoTranslation)),
        (2, 5) => Some(("Time zone offset", EnumTranslation::NoTranslation)),
        (2, 12) => Some(("Backlight mode", EnumTranslation::NoTranslation)),
        (2, 36) => Some(("Activity tracker enabled", EnumTranslation::NoTranslation)),
        (2, 39) => Some(("Clock time", EnumTranslation::NoTranslation)),
        (2, 40) => Some(("Pages enabled", EnumTranslation::NoTranslation)),
        (2, 46) => Some(("Move alert enabled", EnumTranslation::NoTranslation)),
        (2, 47) => Some(("Date mode", EnumTranslation::NoTranslation)),
        (2, 55) => Some(("Display orientation", EnumTranslation::NoTranslation)),
        (2, 56) => Some(("Mounting side", EnumTranslation::NoTranslation)),
        (2, 57) => Some(("Default page", EnumTranslation::NoTranslation)),
        (2, 58) => Some(("Autosync min. steps", EnumTranslation::NoTranslation)),
        (2, 59) => Some(("Autosync max. steps", EnumTranslation::NoTranslation)),
        (2, 80) => Some(("Lactate threshold autodetect enabled", EnumTranslation::NoTranslation)),
        (2, 86) => Some(("BLE auto upload enabled", EnumTranslation::NoTranslation)),
        (2, 89) => Some(("Auto sync frequency", EnumTranslation::NoTranslation)),
        (2, 90) => Some(("Auto activity detect", EnumTranslation::NoTranslation)),
        (2, 94) => Some(("Number of screens", EnumTranslation::NoTranslation)),
        (2, 95) => Some(("Smart notification display orientation", EnumTranslation::NoTranslation)),
        (2, 134) => Some(("Tap interface", EnumTranslation::NoTranslation)),
        (2, 174) => Some(("Tap sensitivity", EnumTranslation::NoTranslation)),
        (49, 0) => Some(("Software version", EnumTranslation::NoTranslation)),
        (49, 1) => Some(("Hardware version", EnumTranslation::NoTranslation)),
        (12, 0) => Some(("Sport", EnumTranslation::Sport)),
        (12, 1) => Some(("Sub-sport", EnumTranslation::NoTranslation)),
        (12, 3) => Some(("Sport name", EnumTranslation::NoTranslation)),
        (33, 254) => Some(("Totals message index", EnumTranslation::NoTranslation)),
        (33, 253) => Some(("Totals timestamp", EnumTranslation::NoTranslation)),
        (33, 0) => Some(("Totals timer time", EnumTranslation::NoTranslation)),
        (33, 1) => Some(("Totals distance", EnumTranslation::NoTranslation)),
        (33, 2) => Some(("Totals calories", EnumTranslation::NoTranslation)),
        (33, 3) => Some(("Totals sport", EnumTranslation::NoTranslation)),
        (33, 4) => Some(("Totals elapsed time", EnumTranslation::NoTranslation)),
        (33, 5) => Some(("Totals sessions", EnumTranslation::NoTranslation)),
        (33, 6) => Some(("Totals active time", EnumTranslation::NoTranslation)),
        (33, 9) => Some(("Totals sport", EnumTranslation::NoTranslation)),
        (34, 253) => Some(("Activity timestamp", EnumTranslation::NoTranslation)),
        (34, 0) => Some(("Activity total timer time", EnumTranslation::NoTranslation)),
        (34, 1) => Some(("Activity number of session", EnumTranslation::NoTranslation)),
        (34, 2) => Some(("Activity type", EnumTranslation::NoTranslation)),
        (34, 3) => Some(("Activity event", EnumTranslation::NoTranslation)),
        (34, 4) => Some(("Activity event type", EnumTranslation::NoTranslation)),
        (34, 5) => Some(("Activity local timestamp", EnumTranslation::NoTranslation)),
        (34, 6) => Some(("Activity event group", EnumTranslation::NoTranslation)),
        (206, 0) => Some(("developer_data_index", EnumTranslation::NoTranslation)),
        (206, 1) => Some(("field_definition_number", EnumTranslation::NoTranslation)),
        (206, 2) => Some(("fit_base_type_id", EnumTranslation::NoTranslation)),
        (206, 3) => Some(("field_name", EnumTranslation::NoTranslation)),
        _ => None,
    }
}

/// The field that field number `i` of message type `mt` resolves to.
pub open spec fn field_of(mt: MessageType, i: u8) -> Field {
    match catalog_entry(mt.number, i) {
        Some((name, translation)) => Field {
            number: i,
            name,
            message_type: mt,
            translation,
            kind: FieldKind::Known,
        },
        None => Field {
            number: i,
            name: "Unknown",
            message_type: mt,
            translation: EnumTranslation::NoTranslation,
            kind: FieldKind::Unknown,
        },
    }
}

/// The field that a developer field definition stands for.
pub open spec fn developer_field_of(mt: MessageType, i: u8) -> Field {
    Field {
        number: i,
        name: "Developer field",
        message_type: mt,
        translation: EnumTranslation::NoTranslation,
        kind: FieldKind::Developer,
    }
}

impl Field {
    /// A catalogued field whose enum values are not named.
    pub fn from(message_type: MessageType, number: u8, name: &'static str) -> (r: Field)
        ensures
            r == (Field {
                number,
                name,
                message_type,
                translation: EnumTranslation::NoTranslation,
                kind: FieldKind::Known,
            }),
    {
        Field::from_with_converter(message_type, number, name, EnumTranslation::NoTranslation)
    }

    /// A catalogued field whose enum values are named by `translation`.
    pub fn from_with_converter(
        message_type: MessageType,
        number: u8,
        name: &'static str,
        translation: EnumTranslation,
    ) -> (r: Field)
        ensures
            r == (Field { number, name, message_type, translation, kind: FieldKind::Known }),
    {
        Field { number, name, message_type, translation, kind: FieldKind::Known }
    }

    /// Whether the catalogue has no entry for this field.
    pub fn is_unknown(&self) -> (r: bool)
        ensures
            r == (self.kind == FieldKind::Unknown),
    {
        match self.kind {
            FieldKind::Unknown => true,
            _ => false,
        }
    }

    /// The field that a developer field definition with number `i` stands for.
    pub fn developer(message_type: &MessageType, i: u8) -> (r: Field)
        ensures
            r == developer_field_of(*message_type, i),
    {
        Field {
            number: i,
            name: "Developer field",
            message_type: *message_type,
            translation: EnumTranslation::NoTranslation,
            kind: FieldKind::Developer,
        }
    }

    /// Resolves field number `i` of the given message type against the catalogue.
    pub fn parse(i: u8, definition_message_type: &MessageType) -> (r: Field)
        ensures
            r == field_of(*definition_message_type, i),
    {
        let mt = *definition_message_type;
        match (mt.number, i) {
            (0, 0) => Field::from_with_converter(mt, i, "Type", EnumTranslation::FileType),
            (0, 1) => Field::from(mt, i, "Manufacturer"),
            (0, 2) => Field::from(mt, i, "Product"),
            (0, 3) => Field::from(mt, i, "Serial number"),
            (0, 4) => Field::from(mt, i, "Time created"),
            (0, 5) => Field::from(mt, i, "Number"),
            (0, 8) => Field::from(mt, i, "Product name"),
            (1, 0) => Field::from(mt, i, "Languages"),
            (1, 1) => Field::from(mt, i, "Sports"),
            (1, 21) => Field::from(mt, i, "Workouts supported"),
            (2, 0) => Field::from(mt, i, "Active time zone"),
            (2, 1) => Field::from(mt, i, "UTC offset"),
            (2, 2) => Field::from(mt, i, "Time offset"),
            (2, 4) => Field::from(mt, i, "Time mode"),
            (2, 5) => Field::from(mt, i, "Time zone offset"),
            (2, 12) => Field::from(mt, i, "Backlight mode"),
            (2, 36) => Field::from(mt, i, "Activity tracker enabled"),
            (2, 39) => Field::from(mt, i, "Clock time"),
            (2, 40) => Field::from(mt, i, "Pages enabled"),
            (2, 46) => Field::from(mt, i, "Move alert enabled"),
            (2, 47) => Field::from(mt, i, "Date mode"),
            (2, 55) => Field::from(mt, i, "Display orientation"),
            (2, 56) => Field::from(mt, i, "Mounting side"),
            (2, 57) => Field::from(mt, i, "Default page"),
            (2, 58) => Field::from(mt, i, "Autosync min. steps"),
            (2, 59) => Field::from(mt, i, "Autosync max. steps"),
            (2, 80) => Field::from(mt, i, "Lactate threshold autodetect enabled"),
            (2, 86) => Field::from(mt, i, "BLE auto upload enabled"),
            (2, 89) => Field::from(mt, i, "Auto sync frequency"),
            (2, 90) => Field::from(mt, i, "Auto activity detect"),
            (2, 94) => Field::from(mt, i, "Number of screens"),
            (2, 95) => Field::from(mt, i, "Smart notification display orientation"),
            (2, 134) => Field::from(mt, i, "Tap interface"),
            (2, 174) => Field::from(mt, i, "Tap sensitivity"),
            (49, 0) => Field::from(mt, i, "Software version"),
            (49, 1) => Field::from(mt, i, "Hardware version"),
            (12, 0) => Field::from_with_converter(mt, i, "Sport", EnumTranslation::Sport),
            (12, 1) => Field::from(mt, i, "Sub-sport"),
            (12, 3) => Field::from(mt, i, "Sport name"),
            (33, 254) => Field::from(mt, i, "Totals message index"),
            (33, 253) => Field::from(mt, i, "Totals timestamp"),
            (33, 0) => Field::from(mt, i, "Totals timer time"),
            (33, 1) => Field::from(mt, i, "Totals distance"),
            (33, 2) => Field::from(mt, i, "Totals calories"),
            (33, 3) => Field::from(mt, i, "Totals sport"),
            (33, 4) => Field::from(mt, i, "Totals elapsed time"),
            (33, 5) => Field::from(mt, i, "Totals sessions"),
            (33, 6) => Field::from(mt, i, "Totals active time"),
            (33, 9) => Field::from(mt, i, "Totals sport"),
            (34, 253) => Field::from(mt, i, "Activity timestamp"),
            (34, 0) => Field::from(mt, i, "Activity total timer time"),
            (34, 1) => Field::from(mt, i, "Activity number of session"),
            (34, 2) => Field::from(mt, i, "Activity type"),
            (34, 3) => Field::from(mt, i, "Activity event"),
            (34, 4) => Field::from(mt, i, "Activity event type"),
            (34, 5) => Field::from(mt, i, "Activity local timestamp"),
            (34, 6) => Field::from(mt, i, "Activity event group"),
            (206, 0) => Field::from(mt, i, "developer_data_index"),
            (206, 1) => Field::from(mt, i, "field_definition_number"),
            (206, 2) => Field::from(mt, i, "fit_base_type_id"),
            (206, 3) => Field::from(mt, i, "field_name"),
            _ => Field {
                number: i,
                name: "Unknown",
                message_type: mt,
                translation: EnumTranslation::NoTranslation,
                kind: FieldKind::Unknown,
            },
        }
    }
}

/// Sports, as the sport field of the sport message names them.
#[derive(Clone, Copy, Debug, PartialEq, Eq, Structural)]
pub enum Sport {
    Generic,
    Running,
    Cycling,
    Transition,
    FitnessEquipment,
    Swimming,
    Basketball,
    Soccer,
    Tennis,
    AmericanFootball,
    Training,
    Walking,
    CrossCountrySkiing,
    AlpineSkiing,
    Snowboarding,
    Rowing,
    Mountaineering,
    Hiking,
    Multisport,
    Paddling,
    Flying,
    EBiking,
    Motorcycling,
    Boating,
    Driving,
    Golf,
    HangGliding,
    HorsebackRiding,
    Hunting,
    Fishing,
    InlineSkating,
    RockClimbing,
    Sailing,
    IceSkating,
    SkyDiving,
    Snowshoeing,
    Snowmobiling,
    StandUpPaddleboarding,
    Surfing,
    Wakeboarding,
    WaterSkiing,
    Kayaking,
    Rafting,
    Windsurfing,
    Kitesurfing,
    Tactical,
    Jumpmaster,
    Boxing,
    FloorClimbing,
    Baseball,
    Diving,
    Hiit,
    Racket,
    WheelchairPushWalk,
    WheelchairPushRun,
    Meditation,
    DiscGolf,
    Cricket,
    Rugby,
    Hockey,
    Lacrosse,
    Volleyball,
    WaterTubing,
    Wakesurfing,
    MixedMartialArts,
    Snorkeling,
    Dance,
    JumpRope,
    All,
    Invalid,
}

/// The sport that code `v` stands for.
pub open spec fn sport_of(v: u8) -> Sport {
    match v {
        0 => Sport::Generic,
        1 => Sport::Running,
        2 => Sport::Cycling,
        3 => Sport::Transition,
        4 => Sport::FitnessEquipment,
        5 => Sport::Swimming,
        6 => Sport::Basketball,
        7 => Sport::Soccer,
        8 => Sport::Tennis,
        9 => Sport::AmericanFootball,
        10 => Sport::Training,
        11 => Sport::Walking,
        12 => Sport::CrossCountrySkiing,
        13 => Sport::AlpineSkiing,
        14 => Sport::Snowboarding,
        15 => Sport::Rowing,
        16 => Sport::Mountaineering,
        17 => Sport::Hiking,
        18 => Sport::Multisport,
        19 => Sport::Paddling,
        20 => Sport::Flying,
        21 => Sport::EBiking,
        22 => Sport::Motorcycling,
        23 => Sport::Boating,
        24 => Sport::Driving,
        25 => Sport::Golf,
        26 => Sport::HangGliding,
        27 => Sport::HorsebackRiding,
        28 => Sport::Hunting,
        29 => Sport::Fishing,
        30 => Sport::InlineSkating,
        31 => Sport::RockClimbing,
        32 => Sport::Sailing,
        33 => Sport::IceSkating,
        34 => Sport::SkyDiving,
        35 => Sport::Snowshoeing,
        36 => Sport::Snowmobiling,
        37 => Sport::StandUpPaddleboarding,
        38 => Sport::Surfing,
        39 => Sport::Wakeboarding,
        40 => Sport::WaterSkiing,
        41 => Sport::Kayaking,
        42 => Sport::Rafting,
        43 => Sport::Windsurfing,
        44 => Sport::Kitesurfing,
        45 => Sport::Tactical,
        46 => Sport::Jumpmaster,
        47 => Sport::Boxing,
        48 => Sport::FloorClimbing,
        49 => Sport::Baseball,
        53 => Sport::Diving,
        62 => Sport::Hiit,
        64 => Sport::Racket,
        65 => Sport::WheelchairPushWalk,
        66 => Sport::WheelchairPushRun,
        67 => Sport::Meditation,
        69 => Sport::DiscGolf,
        71 => Sport::Cricket,
        72 => Sport::Rugby,
        73 => Sport::Hockey,
        74 => Sport::Lacrosse,
        75 => Sport::Volleyball,
        76 => Sport::WaterTubing,
        77 => Sport::Wakesurfing,
        80 => Sport::MixedMartialArts,
        82 => Sport::Snorkeling,
        83 => Sport::Dance,
        84 => Sport::JumpRope,
        254 => Sport::All,
        255 => Sport::Invalid,
        _ => Sport::Invalid,
    }
}

impl Sport {
    /// Names the sport that a raw enum code stands for.
    pub fn resolve(enum_value: &u8) -> (r: Sport)
        ensures
            r == sport_of(*enum_value),
    {
        match *enum_value {
            0 => Sport::Generic,
            1 => Sport::Running,
            2 => Sport::Cycling,
            3 => Sport::Transition,
            4 => Sport::FitnessEquipment,
            5 => Sport::Swimming,
            6 => Sport::Basketball,
            7 => Sport::Soccer,
            8 => Sport::Tennis,
            9 => Sport::AmericanFootball,
            10 => Sport::Training,
            11 => Sport::Walking,
            12 => Sport::CrossCountrySkiing,
            13 => Sport::AlpineSkiing,
            14 => Sport::Snowboarding,
            15 => Sport::Rowing,
            16 => Sport::Mountaineering,
            17 => Sport::Hiking,
            18 => Sport::Multisport,
            19 => Sport::Paddling,
            20 => Sport::Flying,
            21 => Sport::EBiking,
            22 => Sport::Motorcycling,
            23 => Sport::Boating,
            24 => Sport::Driving,
            25 => Sport::Golf,
            26 => Sport::HangGliding,
            27 => Sport::HorsebackRiding,
            28 => Sport::Hunting,
            29 => Sport::Fishing,
            30 => Sport::InlineSkating,
            31 => Sport::RockClimbing,
            32 => Sport::Sailing,
            33 => Sport::IceSkating,
            34 => Sport::SkyDiving,
            35 => Sport::Snowshoeing,
            36 => Sport::Snowmobiling,
            37 => Sport::StandUpPaddleboarding,
            38 => Sport::Surfing,
            39 => Sport::Wakeboarding,
            40 => Sport::WaterSkiing,
            41 => Sport::Kayaking,
            42 => Sport::Rafting,
            43 => Sport::Windsurfing,
            44 => Sport::Kitesurfing,
            45 => Sport::Tactical,
            46 => Sport::Jumpmaster,
            47 => Sport::Boxing,
            48 => Sport::FloorClimbing,
            49 => Sport::Baseball,
            53 => Sport::Diving,
            62 => Sport::Hiit,
            64 => Sport::Racket,
            65 => Sport::WheelchairPushWalk,
            66 => Sport::WheelchairPushRun,
            67 => Sport::Meditation,
            69 => Sport::DiscGolf,
            71 => Sport::Cricket,
            72 => Sport::Rugby,
            73 => Sport::Hockey,
            74 => Sport::Lacrosse,
            75 => Sport::Volleyball,
            76 => Sport::WaterTubing,
            77 => Sport::Wakesurfing,
            80 => Sport::MixedMartialArts,
            82 => Sport::Snorkeling,
            83 => Sport::Dance,
            84 => Sport::JumpRope,
            254 => Sport::All,
            255 => Sport::Invalid,
            _ => Sport::Invalid,
        }
    }
}

/// File types, as the type field of the file id message names them.
#[allow(non_camel_case_types)]
#[derive(Clone, Copy, Debug, PartialEq, Eq, Structural)]
pub enum FileType {
    DEVICE,
    SETTINGS,
    SPORT,
    ACTIVITY,
    WORKOUT,
    COURSE,
    SCHEDULES,
    WEIGHT,
    TOTALS,
    GOALS,
    BLOOD_PRESSURE,
    MONITORING_A,
    ACTIVITY_SUMMARY,
    MONITORING_DAILY,
    MONITORING_B,
    SEGMENT,
    SEGMENT_LIST,
    EXD_CONFIGURATION,
    MFG_RANGE_MIN,
    MFG_RANGE_MAX,
    INVALID,
}

/// The file type that code `v` stands for.
pub open spec fn file_type_of(v: u8) -> FileType {
    match v {
        1 => FileType::DEVICE,
        2 => FileType::SETTINGS,
        3 => FileType::SPORT,
        4 => FileType::ACTIVITY,
        5 => FileType::WORKOUT,
        6 => FileType::COURSE,
        7 => FileType::SCHEDULES,
        9 => FileType::WEIGHT,
        10 => FileType::TOTALS,
        11 => FileType::GOALS,
        14 => FileType::BLOOD_PRESSURE,
        15 => FileType::MONITORING_A,
        20 => FileType::ACTIVITY_SUMMARY,
        28 => FileType::MONITORING_DAILY,
        32 => FileType::MONITORING_B,
        34 => FileType::SEGMENT,
        35 => FileType::SEGMENT_LIST,
        40 => FileType::EXD_CONFIGURATION,
        0xF7 => FileType::MFG_RANGE_MIN,
        0xFE => FileType::MFG_RANGE_MAX,
        255 => FileType::INVALID,
        _ => FileType::INVALID,
    }
}

impl FileType {
    /// Names the file type that a raw enum code stands for.
    pub fn resolve(enum_value: &u8) -> (r: FileType)
        ensures
            r == file_type_of(*enum_value),
    {
        match *enum_value {
            1 => FileType::DEVICE,
            2 => FileType::SETTINGS,
            3 => FileType::SPORT,
            4 => FileType::ACTIVITY,
            5 => FileType::WORKOUT,
            6 => FileType::COURSE,
            7 => FileType::SCHEDULES,
            9 => FileType::WEIGHT,
            10 => FileType::TOTALS,
            11 => FileType::GOALS,
            14 => FileType::BLOOD_PRESSURE,
            15 => FileType::MONITORING_A,
            20 => FileType::ACTIVITY_SUMMARY,
            28 => FileType::MONITORING_DAILY,
            32 => FileType::MONITORING_B,
            34 => FileType::SEGMENT,
            35 => FileType::SEGMENT_LIST,
            40 => FileType::EXD_CONFIGURATION,
            0xF7 => FileType::MFG_RANGE_MIN,
            0xFE => FileType::MFG_RANGE_MAX,
            255 => FileType::INVALID,
            _ => FileType::INVALID,
        }
    }
}

} // verus!
