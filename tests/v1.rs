use navira_car::wire::cid::RawCid;
use navira_car::wire::header::CarHeader;
use navira_car::wire::section::{Block, LocatableSection, Section, SectionFormatError};
use navira_car::wire::v1::{CarReader, CarReaderError, CarWriter, CarWriterError};

const CAR_V1: [u8; 715] = [
    0x63, 0xA2, 0x65, 0x72, 0x6F, 0x6F, 0x74, 0x73, 0x82, 0xD8, 0x2A, 0x58, 0x25, 0x00, 0x01,
    0x71, 0x12, 0x20, 0xF8, 0x8B, 0xC8, 0x53, 0x80, 0x4C, 0xF2, 0x94, 0xFE, 0x41, 0x7E, 0x4F,
    0xA8, 0x30, 0x28, 0x68, 0x9F, 0xCD, 0xB1, 0xB1, 0x59, 0x2C, 0x51, 0x02, 0xE1, 0x47, 0x4D,
    0xBC, 0x20, 0x0F, 0xAB, 0x8B, 0xD8, 0x2A, 0x58, 0x25, 0x00, 0x01, 0x71, 0x12, 0x20, 0x69,
    0xEA, 0x07, 0x40, 0xF9, 0x80, 0x7A, 0x28, 0xF4, 0xD9, 0x32, 0xC6, 0x2E, 0x7C, 0x1C, 0x83,
    0xBE, 0x05, 0x5E, 0x55, 0x07, 0x2C, 0x90, 0x26, 0x6A, 0xB3, 0xE7, 0x9D, 0xF6, 0x3A, 0x36,
    0x5B, 0x67, 0x76, 0x65, 0x72, 0x73, 0x69, 0x6F, 0x6E, 0x01, 0x5B, 0x01, 0x71, 0x12, 0x20,
    0xF8, 0x8B, 0xC8, 0x53, 0x80, 0x4C, 0xF2, 0x94, 0xFE, 0x41, 0x7E, 0x4F, 0xA8, 0x30, 0x28,
    0x68, 0x9F, 0xCD, 0xB1, 0xB1, 0x59, 0x2C, 0x51, 0x02, 0xE1, 0x47, 0x4D, 0xBC, 0x20, 0x0F,
    0xAB, 0x8B, 0xA2, 0x64, 0x6C, 0x69, 0x6E, 0x6B, 0xD8, 0x2A, 0x58, 0x23, 0x00, 0x12, 0x20,
    0x02, 0xAC, 0xEC, 0xC5, 0xDE, 0x24, 0x38, 0xEA, 0x41, 0x26, 0xA3, 0x01, 0x0E, 0xCB, 0x1F,
    0x8A, 0x59, 0x9C, 0x8E, 0xFF, 0x22, 0xFF, 0xF1, 0xA1, 0xDC, 0xFF, 0xE9, 0x99, 0xB2, 0x7F,
    0xD3, 0xDE, 0x64, 0x6E, 0x61, 0x6D, 0x65, 0x64, 0x62, 0x6C, 0x69, 0x70, 0x83, 0x01, 0x12,
    0x20, 0x02, 0xAC, 0xEC, 0xC5, 0xDE, 0x24, 0x38, 0xEA, 0x41, 0x26, 0xA3, 0x01, 0x0E, 0xCB,
    0x1F, 0x8A, 0x59, 0x9C, 0x8E, 0xFF, 0x22, 0xFF, 0xF1, 0xA1, 0xDC, 0xFF, 0xE9, 0x99, 0xB2,
    0x7F, 0xD3, 0xDE, 0x12, 0x2E, 0x0A, 0x24, 0x01, 0x55, 0x12, 0x20, 0xB6, 0xFB, 0xD6, 0x75,
    0xF9, 0x8E, 0x2A, 0xBD, 0x22, 0xD4, 0xED, 0x29, 0xFD, 0xC8, 0x31, 0x50, 0xFE, 0xDC, 0x48,
    0x59, 0x7E, 0x92, 0xDD, 0x1A, 0x7A, 0x24, 0x38, 0x1D, 0x44, 0xA2, 0x74, 0x51, 0x12, 0x04,
    0x62, 0x65, 0x61, 0x72, 0x18, 0x04, 0x12, 0x2F, 0x0A, 0x22, 0x12, 0x20, 0x79, 0xA9, 0x82,
    0xDE, 0x3C, 0x99, 0x07, 0x95, 0x3D, 0x4D, 0x32, 0x3C, 0xEE, 0x1D, 0x0F, 0xB1, 0xED, 0x8F,
    0x45, 0xF8, 0xEF, 0x02, 0x87, 0x0C, 0x0C, 0xB9, 0xE0, 0x92, 0x46, 0xBD, 0x53, 0x0A, 0x12,
    0x06, 0x73, 0x65, 0x63, 0x6F, 0x6E, 0x64, 0x18, 0x95, 0x01, 0x28, 0x01, 0x55, 0x12, 0x20,
    0xB6, 0xFB, 0xD6, 0x75, 0xF9, 0x8E, 0x2A, 0xBD, 0x22, 0xD4, 0xED, 0x29, 0xFD, 0xC8, 0x31,
    0x50, 0xFE, 0xDC, 0x48, 0x59, 0x7E, 0x92, 0xDD, 0x1A, 0x7A, 0x24, 0x38, 0x1D, 0x44, 0xA2,
    0x74, 0x51, 0x63, 0x63, 0x63, 0x63, 0x80, 0x01, 0x12, 0x20, 0x79, 0xA9, 0x82, 0xDE, 0x3C,
    0x99, 0x07, 0x95, 0x3D, 0x4D, 0x32, 0x3C, 0xEE, 0x1D, 0x0F, 0xB1, 0xED, 0x8F, 0x45, 0xF8,
    0xEF, 0x02, 0x87, 0x0C, 0x0C, 0xB9, 0xE0, 0x92, 0x46, 0xBD, 0x53, 0x0A, 0x12, 0x2D, 0x0A,
    0x24, 0x01, 0x55, 0x12, 0x20, 0x81, 0xCC, 0x5B, 0x17, 0x01, 0x86, 0x74, 0xB4, 0x01, 0xB4,
    0x2F, 0x35, 0xBA, 0x07, 0xBB, 0x79, 0xE2, 0x11, 0x23, 0x9C, 0x23, 0xBF, 0xFE, 0x65, 0x8D,
    0xA1, 0x57, 0x7E, 0x3E, 0x64, 0x68, 0x77, 0x12, 0x03, 0x64, 0x6F, 0x67, 0x18, 0x04, 0x12,
    0x2D, 0x0A, 0x22, 0x12, 0x20, 0xE7, 0xDC, 0x48, 0x6E, 0x97, 0xE6, 0xEB, 0xE5, 0xCD, 0xAB,
    0xAB, 0x3E, 0x39, 0x2B, 0xDA, 0xD1, 0x28, 0xB6, 0xE0, 0x9A, 0xCC, 0x94, 0xBB, 0x4E, 0x2A,
    0xA2, 0xAF, 0x7B, 0x98, 0x6D, 0x24, 0xD0, 0x12, 0x05, 0x66, 0x69, 0x72, 0x73, 0x74, 0x18,
    0x33, 0x28, 0x01, 0x55, 0x12, 0x20, 0x81, 0xCC, 0x5B, 0x17, 0x01, 0x86, 0x74, 0xB4, 0x01,
    0xB4, 0x2F, 0x35, 0xBA, 0x07, 0xBB, 0x79, 0xE2, 0x11, 0x23, 0x9C, 0x23, 0xBF, 0xFE, 0x65,
    0x8D, 0xA1, 0x57, 0x7E, 0x3E, 0x64, 0x68, 0x77, 0x62, 0x62, 0x62, 0x62, 0x51, 0x12, 0x20,
    0xE7, 0xDC, 0x48, 0x6E, 0x97, 0xE6, 0xEB, 0xE5, 0xCD, 0xAB, 0xAB, 0x3E, 0x39, 0x2B, 0xDA,
    0xD1, 0x28, 0xB6, 0xE0, 0x9A, 0xCC, 0x94, 0xBB, 0x4E, 0x2A, 0xA2, 0xAF, 0x7B, 0x98, 0x6D,
    0x24, 0xD0, 0x12, 0x2D, 0x0A, 0x24, 0x01, 0x55, 0x12, 0x20, 0x61, 0xBE, 0x55, 0xA8, 0xE2,
    0xF6, 0xB4, 0xE1, 0x72, 0x33, 0x8B, 0xDD, 0xF1, 0x84, 0xD6, 0xDB, 0xEE, 0x29, 0xC9, 0x88,
    0x53, 0xE0, 0xA0, 0x48, 0x5E, 0xCE, 0xE7, 0xF2, 0x7B, 0x9A, 0xF0, 0xB4, 0x12, 0x03, 0x63,
    0x61, 0x74, 0x18, 0x04, 0x28, 0x01, 0x55, 0x12, 0x20, 0x61, 0xBE, 0x55, 0xA8, 0xE2, 0xF6,
    0xB4, 0xE1, 0x72, 0x33, 0x8B, 0xDD, 0xF1, 0x84, 0xD6, 0xDB, 0xEE, 0x29, 0xC9, 0x88, 0x53,
    0xE0, 0xA0, 0x48, 0x5E, 0xCE, 0xE7, 0xF2, 0x7B, 0x9A, 0xF0, 0xB4, 0x61, 0x61, 0x61, 0x61,
    0x36, 0x01, 0x71, 0x12, 0x20, 0x69, 0xEA, 0x07, 0x40, 0xF9, 0x80, 0x7A, 0x28, 0xF4, 0xD9,
    0x32, 0xC6, 0x2E, 0x7C, 0x1C, 0x83, 0xBE, 0x05, 0x5E, 0x55, 0x07, 0x2C, 0x90, 0x26, 0x6A,
    0xB3, 0xE7, 0x9D, 0xF6, 0x3A, 0x36, 0x5B, 0xA2, 0x64, 0x6C, 0x69, 0x6E, 0x6B, 0xF6, 0x64,
    0x6E, 0x61, 0x6D, 0x65, 0x65, 0x6C, 0x69, 0x6D, 0x62, 0x6F,
];

const CAR_V2: [u8; 715] = [
    0x0A, 0xA1, 0x67, 0x76, 0x65, 0x72, 0x73, 0x69, 0x6F, 0x6E, 0x02, 0x00, 0x00, 0x00, 0x00,
    0x00, 0x00, 0x00, 0x00, 0x00, 0x00, 0x00, 0x00, 0x00, 0x00, 0x00, 0x00, 0x33, 0x00, 0x00,
    0x00, 0x00, 0x00, 0x00, 0x00, 0xC0, 0x01, 0x00, 0x00, 0x00, 0x00, 0x00, 0x00, 0xF3, 0x01,
    0x00, 0x00, 0x00, 0x00, 0x00, 0x00, 0x38, 0xA2, 0x65, 0x72, 0x6F, 0x6F, 0x74, 0x73, 0x81,
    0xD8, 0x2A, 0x58, 0x23, 0x00, 0x12, 0x20, 0xFB, 0x16, 0xF5, 0x08, 0x34, 0x12, 0xEF, 0x13,
    0x71, 0xD0, 0x31, 0xED, 0x4A, 0xA2, 0x39, 0x90, 0x3D, 0x84, 0xEF, 0xDA, 0xDF, 0x1B, 0xA3,
    0xCD, 0x67, 0x8E, 0x64, 0x75, 0xB1, 0xA2, 0x32, 0xF8, 0x67, 0x76, 0x65, 0x72, 0x73, 0x69,
    0x6F, 0x6E, 0x01, 0x51, 0x12, 0x20, 0xFB, 0x16, 0xF5, 0x08, 0x34, 0x12, 0xEF, 0x13, 0x71,
    0xD0, 0x31, 0xED, 0x4A, 0xA2, 0x39, 0x90, 0x3D, 0x84, 0xEF, 0xDA, 0xDF, 0x1B, 0xA3, 0xCD,
    0x67, 0x8E, 0x64, 0x75, 0xB1, 0xA2, 0x32, 0xF8, 0x12, 0x2D, 0x0A, 0x22, 0x12, 0x20, 0xD9,
    0xC0, 0xD5, 0x37, 0x6D, 0x26, 0xF1, 0x93, 0x1F, 0x7A, 0xD5, 0x2D, 0x7A, 0xCC, 0x00, 0xFC,
    0x10, 0x90, 0xD2, 0xED, 0xB0, 0x80, 0x8B, 0xF6, 0x1E, 0xEB, 0x0A, 0x15, 0x28, 0x26, 0xF6,
    0x26, 0x12, 0x04, 0xF0, 0x9F, 0x8D, 0xA4, 0x18, 0xA4, 0x01, 0x85, 0x01, 0x12, 0x20, 0xD9,
    0xC0, 0xD5, 0x37, 0x6D, 0x26, 0xF1, 0x93, 0x1F, 0x7A, 0xD5, 0x2D, 0x7A, 0xCC, 0x00, 0xFC,
    0x10, 0x90, 0xD2, 0xED, 0xB0, 0x80, 0x8B, 0xF6, 0x1E, 0xEB, 0x0A, 0x15, 0x28, 0x26, 0xF6,
    0x26, 0x12, 0x31, 0x0A, 0x22, 0x12, 0x20, 0xD7, 0x45, 0xB7, 0x75, 0x7F, 0x5B, 0x45, 0x93,
    0xEE, 0xAB, 0x78, 0x20, 0x30, 0x6C, 0x7B, 0xC6, 0x4E, 0xB4, 0x96, 0xA7, 0x41, 0x0A, 0x0D,
    0x07, 0xDF, 0x7A, 0x34, 0xFF, 0xEC, 0x4B, 0x97, 0xF1, 0x12, 0x09, 0x62, 0x61, 0x72, 0x72,
    0x65, 0x6C, 0x65, 0x79, 0x65, 0x18, 0x3A, 0x12, 0x2E, 0x0A, 0x24, 0x01, 0x55, 0x12, 0x20,
    0xA2, 0xE1, 0xC4, 0x0D, 0xA1, 0xAE, 0x33, 0x5D, 0x4D, 0xFF, 0xE7, 0x29, 0xEB, 0x4D, 0x5C,
    0xA2, 0x3B, 0x74, 0xB9, 0xE5, 0x1F, 0xC5, 0x35, 0xF4, 0xA8, 0x04, 0xA2, 0x61, 0x08, 0x0C,
    0x29, 0x4D, 0x12, 0x04, 0xF0, 0x9F, 0x90, 0xA1, 0x18, 0x07, 0x58, 0x12, 0x20, 0xD7, 0x45,
    0xB7, 0x75, 0x7F, 0x5B, 0x45, 0x93, 0xEE, 0xAB, 0x78, 0x20, 0x30, 0x6C, 0x7B, 0xC6, 0x4E,
    0xB4, 0x96, 0xA7, 0x41, 0x0A, 0x0D, 0x07, 0xDF, 0x7A, 0x34, 0xFF, 0xEC, 0x4B, 0x97, 0xF1,
    0x12, 0x34, 0x0A, 0x24, 0x01, 0x55, 0x12, 0x20, 0xB4, 0x74, 0xA9, 0x9A, 0x27, 0x05, 0xE2,
    0x3C, 0xF9, 0x05, 0xA4, 0x84, 0xEC, 0x6D, 0x14, 0xEF, 0x58, 0xB5, 0x6B, 0xBE, 0x62, 0xE9,
    0x29, 0x27, 0x83, 0x46, 0x6E, 0xC3, 0x63, 0xB5, 0x07, 0x2D, 0x12, 0x0A, 0x66, 0x69, 0x73,
    0x68, 0x6D, 0x6F, 0x6E, 0x67, 0x65, 0x72, 0x18, 0x04, 0x28, 0x01, 0x55, 0x12, 0x20, 0xB4,
    0x74, 0xA9, 0x9A, 0x27, 0x05, 0xE2, 0x3C, 0xF9, 0x05, 0xA4, 0x84, 0xEC, 0x6D, 0x14, 0xEF,
    0x58, 0xB5, 0x6B, 0xBE, 0x62, 0xE9, 0x29, 0x27, 0x83, 0x46, 0x6E, 0xC3, 0x63, 0xB5, 0x07,
    0x2D, 0x66, 0x69, 0x73, 0x68, 0x2B, 0x01, 0x55, 0x12, 0x20, 0xA2, 0xE1, 0xC4, 0x0D, 0xA1,
    0xAE, 0x33, 0x5D, 0x4D, 0xFF, 0xE7, 0x29, 0xEB, 0x4D, 0x5C, 0xA2, 0x3B, 0x74, 0xB9, 0xE5,
    0x1F, 0xC5, 0x35, 0xF4, 0xA8, 0x04, 0xA2, 0x61, 0x08, 0x0C, 0x29, 0x4D, 0x6C, 0x6F, 0x62,
    0x73, 0x74, 0x65, 0x72, 0x01, 0x00, 0x00, 0x00, 0x28, 0x00, 0x00, 0x00, 0xC8, 0x00, 0x00,
    0x00, 0x00, 0x00, 0x00, 0x00, 0xA2, 0xE1, 0xC4, 0x0D, 0xA1, 0xAE, 0x33, 0x5D, 0x4D, 0xFF,
    0xE7, 0x29, 0xEB, 0x4D, 0x5C, 0xA2, 0x3B, 0x74, 0xB9, 0xE5, 0x1F, 0xC5, 0x35, 0xF4, 0xA8,
    0x04, 0xA2, 0x61, 0x08, 0x0C, 0x29, 0x4D, 0x94, 0x01, 0x00, 0x00, 0x00, 0x00, 0x00, 0x00,
    0xB4, 0x74, 0xA9, 0x9A, 0x27, 0x05, 0xE2, 0x3C, 0xF9, 0x05, 0xA4, 0x84, 0xEC, 0x6D, 0x14,
    0xEF, 0x58, 0xB5, 0x6B, 0xBE, 0x62, 0xE9, 0x29, 0x27, 0x83, 0x46, 0x6E, 0xC3, 0x63, 0xB5,
    0x07, 0x2D, 0x6B, 0x01, 0x00, 0x00, 0x00, 0x00, 0x00, 0x00, 0xD7, 0x45, 0xB7, 0x75, 0x7F,
    0x5B, 0x45, 0x93, 0xEE, 0xAB, 0x78, 0x20, 0x30, 0x6C, 0x7B, 0xC6, 0x4E, 0xB4, 0x96, 0xA7,
    0x41, 0x0A, 0x0D, 0x07, 0xDF, 0x7A, 0x34, 0xFF, 0xEC, 0x4B, 0x97, 0xF1, 0x12, 0x01, 0x00,
    0x00, 0x00, 0x00, 0x00, 0x00, 0xD9, 0xC0, 0xD5, 0x37, 0x6D, 0x26, 0xF1, 0x93, 0x1F, 0x7A,
    0xD5, 0x2D, 0x7A, 0xCC, 0x00, 0xFC, 0x10, 0x90, 0xD2, 0xED, 0xB0, 0x80, 0x8B, 0xF6, 0x1E,
    0xEB, 0x0A, 0x15, 0x28, 0x26, 0xF6, 0x26, 0x8B, 0x00, 0x00, 0x00, 0x00, 0x00, 0x00, 0x00,
    0xFB, 0x16, 0xF5, 0x08, 0x34, 0x12, 0xEF, 0x13, 0x71, 0xD0, 0x31, 0xED, 0x4A, 0xA2, 0x39,
    0x90, 0x3D, 0x84, 0xEF, 0xDA, 0xDF, 0x1B, 0xA3, 0xCD, 0x67, 0x8E, 0x64, 0x75, 0xB1, 0xA2,
    0x32, 0xF8, 0x39, 0x00, 0x00, 0x00, 0x00, 0x00, 0x00, 0x00,
];

const CAR_V1_HEADER1: [u8; 99] = [
    0xA2, 0x65, 0x72, 0x6F, 0x6F, 0x74, 0x73, 0x82, 0xD8, 0x2A, 0x58, 0x25, 0x00, 0x01, 0x71,
    0x12, 0x20, 0xF8, 0x8B, 0xC8, 0x53, 0x80, 0x4C, 0xF2, 0x94, 0xFE, 0x41, 0x7E, 0x4F, 0xA8,
    0x30, 0x28, 0x68, 0x9F, 0xCD, 0xB1, 0xB1, 0x59, 0x2C, 0x51, 0x02, 0xE1, 0x47, 0x4D, 0xBC,
    0x20, 0x0F, 0xAB, 0x8B, 0xD8, 0x2A, 0x58, 0x25, 0x00, 0x01, 0x71, 0x12, 0x20, 0x69, 0xEA,
    0x07, 0x40, 0xF9, 0x80, 0x7A, 0x28, 0xF4, 0xD9, 0x32, 0xC6, 0x2E, 0x7C, 0x1C, 0x83, 0xBE,
    0x05, 0x5E, 0x55, 0x07, 0x2C, 0x90, 0x26, 0x6A, 0xB3, 0xE7, 0x9D, 0xF6, 0x3A, 0x36, 0x5B,
    0x67, 0x76, 0x65, 0x72, 0x73, 0x69, 0x6F, 0x6E, 0x01,
];

fn read_header_chunked(reader: &mut CarReader, data: &[u8], chunk_size: usize) {
    loop {
        match reader.read_header() {
            Ok(()) => break,
            Err(CarReaderError::InsufficientData(read_from, _)) => {
                let end = std::cmp::min(read_from + chunk_size, data.len());
                if read_from >= end {
                    panic!("Test data exhausted before header could be read");
                }
                reader.receive_data(&data[read_from..end], read_from);
            }
            Err(err) => {
                panic!("Unexpected error while reading header: {:?}", err);
            }
        }
    }
}

fn read_all_sections(reader: &mut CarReader, data: &[u8], chunk_size: usize) -> Vec<LocatableSection> {
    let mut out = Vec::new();
    loop {
        match reader.read_section() {
            Ok(section) => out.push(section),
            Err(CarReaderError::InsufficientData(read_from, _)) => {
                let end = std::cmp::min(read_from + chunk_size, data.len());
                if read_from >= end {
                    break;
                }
                reader.receive_data(&data[read_from..end], read_from);
            }
            Err(err) => panic!("Unexpected error while reading section: {:?}", err),
        }
    }
    out
}

fn cid(text: &str) -> RawCid {
    RawCid::from_hex(text).unwrap()
}

#[test]
fn test_car_v1_header_deserialization() {
    let header = CarHeader::from_bytes(CAR_V1_HEADER1.as_slice()).unwrap();
    let cid1 = cid("01711220f88bc853804cf294fe417e4fa83028689fcdb1b1592c5102e1474dbc200fab8b");
    let cid2 = cid("0171122069ea0740f9807a28f4d932c62e7c1c83be055e55072c90266ab3e79df63a365b");
    assert_eq!(header.version(), 1);
    assert_eq!(header.roots().len(), 2);
    assert_eq!(header.roots()[0], cid1);
    assert_eq!(header.roots()[1], cid2);
}

#[test]
fn test_car_v1_header_serialization() {
    let cid1 = cid("01711220f88bc853804cf294fe417e4fa83028689fcdb1b1592c5102e1474dbc200fab8b");
    let cid2 = cid("0171122069ea0740f9807a28f4d932c62e7c1c83be055e55072c90266ab3e79df63a365b");
    let header = CarHeader::new(vec![cid1, cid2]);
    let buf = header.to_bytes();
    let deserialized_header = CarHeader::from_bytes(&buf).unwrap();
    assert_eq!(deserialized_header.version(), header.version());
    assert_eq!(deserialized_header.roots(), header.roots());
}

#[test]
fn header_bytes_that_are_not_a_header() {
    // {"version": 2}: no roots.
    let bytes = [0xa1, 0x67, 0x76, 0x65, 0x72, 0x73, 0x69, 0x6f, 0x6e, 0x02];
    assert!(CarHeader::from_bytes(&bytes).is_none());
    assert!(CarHeader::from_bytes(&[0xff]).is_none());
    assert!(CarHeader::new(vec![]).is_empty());
}

#[test]
fn test_car_v1_reader_read_header() {
    let mut reader = CarReader::new();
    read_header_chunked(&mut reader, &CAR_V1, 50);
    let header = reader.header().unwrap();
    assert_eq!(header.version(), 1);
    assert_eq!(header.roots().len(), 2);
}

#[test]
fn test_car_v1_reader_count_sections() {
    let mut reader = CarReader::new();
    read_header_chunked(&mut reader, &CAR_V1, 50);
    let sections = read_all_sections(&mut reader, &CAR_V1, 50);
    let block_bytes: usize = sections.iter().map(|s| s.section.block().data().len()).sum();
    assert_eq!(sections.len(), 8);
    assert_eq!(block_bytes, 323);
}

#[test]
fn test_car_v1_reader_find_block() {
    let mut reader = CarReader::new();
    let chunk_size = 50;
    let mut block_bytes = 0;
    let mut block_count = 0;
    read_header_chunked(&mut reader, &CAR_V1, chunk_size);
    let target_cid = cid("01551220b6fbd675f98e2abd22d4ed29fdc83150fedc48597e92dd1a7a24381d44a27451");
    loop {
        match reader.find_section(&target_cid) {
            Ok(section) => {
                block_bytes += section.section.block().data().len();
                block_count += 1;
                assert_eq!(section.section.cid(), &target_cid);
            }
            Err(CarReaderError::InsufficientData(read_from, _)) => {
                let end = std::cmp::min(read_from + chunk_size, CAR_V1.len());
                if read_from >= end {
                    break;
                }
                reader.receive_data(&CAR_V1[read_from..end], read_from);
            }
            Err(err) => {
                panic!("Unexpected error while reading section: {:?}", err);
            }
        }
    }
    assert_eq!(block_count, 1);
    assert_eq!(block_bytes, 4);
}

#[test]
fn v1_sections_replay_from_their_locations() {
    let mut reader = CarReader::new();
    reader.receive_data(&CAR_V1, 0);
    reader.read_header().unwrap();
    let sections = read_all_sections(&mut reader, &CAR_V1, 4096);
    assert_eq!(sections.len(), 8);
    for ls in &sections {
        let start = ls.location.offset as usize;
        let end = start + ls.location.length as usize;
        let (again, size) = Section::try_read_bytes(&CAR_V1[start..end]).unwrap();
        assert_eq!(size as u64, ls.location.length);
        assert_eq!(again.cid(), ls.section.cid());
        assert_eq!(again.block().data(), ls.section.block().data());
        assert_eq!(ls.section.to_bytes(), CAR_V1[start..end].to_vec());
    }
    assert_eq!(sections[0].location.offset, 100);
}

#[test]
fn v1_chunk_sizes_give_the_same_sections() {
    let mut reference = CarReader::new();
    reference.receive_data(&CAR_V1, 0);
    reference.read_header().unwrap();
    let expected = read_all_sections(&mut reference, &CAR_V1, 4096);
    for chunk in [1usize, 7, 50, 4096] {
        let mut reader = CarReader::new();
        read_header_chunked(&mut reader, &CAR_V1, chunk);
        let got = read_all_sections(&mut reader, &CAR_V1, chunk);
        assert_eq!(got.len(), expected.len());
        for (a, b) in got.iter().zip(expected.iter()) {
            assert_eq!(a.location, b.location);
            assert_eq!(a.section.cid(), b.section.cid());
            assert_eq!(a.section.block().data(), b.section.block().data());
        }
    }
}

#[test]
fn v1_seek_twice_then_find_any_cid() {
    let mut reader = CarReader::new();
    reader.receive_data(&CAR_V1, 0);
    reader.read_header().unwrap();
    let all = read_all_sections(&mut reader, &CAR_V1, 4096);
    for target in &all {
        reader.seek_first_section().unwrap();
        reader.seek_first_section().unwrap();
        let found = loop {
            match reader.find_section(target.section.cid()) {
                Ok(s) => break s,
                Err(CarReaderError::InsufficientData(from, _)) => {
                    assert!(from < CAR_V1.len());
                    reader.receive_data(&CAR_V1[from..], from);
                }
                Err(e) => panic!("unexpected {:?}", e),
            }
        };
        assert_eq!(found.section.cid(), target.section.cid());
    }
}

#[test]
fn v1_reader_errors() {
    let mut reader = CarReader::new();
    assert!(matches!(reader.read_section(), Err(CarReaderError::PreconditionNotMet)));
    assert!(matches!(reader.seek_first_section(), Err(CarReaderError::PreconditionNotMet)));
    assert!(matches!(
        reader.find_section(&RawCid::new(vec![1])),
        Err(CarReaderError::PreconditionNotMet)
    ));
    assert!(matches!(reader.read_header(), Err(CarReaderError::InsufficientData(0, 8))));
    reader.receive_data(&CAR_V1[10..20], 10);
    assert!(matches!(reader.read_header(), Err(CarReaderError::InsufficientData(0, 8))));
    let mut reader = CarReader::new();
    reader.receive_data(&[0x80; 9], 0);
    assert!(matches!(reader.read_header(), Err(CarReaderError::InvalidFormat)));
    let mut reader = CarReader::new();
    reader.receive_data(&CAR_V1[0..30], 0);
    assert!(matches!(reader.read_header(), Err(CarReaderError::InsufficientData(30, 70))));
    let mut reader = CarReader::new();
    reader.receive_data(&[0x02, 0xff, 0xff], 0);
    assert!(matches!(reader.read_header(), Err(CarReaderError::InvalidHeader(_))));
}

#[test]
fn v1_reader_rejects_other_versions() {
    let roots = [0xa2, 0x65, 0x72, 0x6f, 0x6f, 0x74, 0x73, 0x80, 0x67, 0x76, 0x65, 0x72, 0x73, 0x69, 0x6f, 0x6e, 0x02];
    let mut bytes = vec![roots.len() as u8];
    bytes.extend_from_slice(&roots);
    let mut reader = CarReader::new();
    reader.receive_data(&bytes, 0);
    assert!(matches!(reader.read_header(), Err(CarReaderError::InvalidVersion(2))));
}

#[test]
fn section_errors() {
    assert!(matches!(Section::try_read_bytes(&[]), Err(SectionFormatError::InsufficientData)));
    assert!(matches!(Section::try_read_bytes(&[0x80; 17]), Err(SectionFormatError::InvalidSize(2097153))));
    // Declared length 3 MiB.
    assert!(matches!(
        Section::try_read_bytes(&[0x80, 0x80, 0xC0, 0x01]),
        Err(SectionFormatError::InvalidSize(3145728))
    ));
    assert!(matches!(
        Section::try_read_bytes(&[0x05, 0x02, 0x00]),
        Err(SectionFormatError::InvalidCid(_))
    ));
    // A CID longer than the declared length.
    let mut bytes = vec![0x04];
    bytes.extend_from_slice(&CAR_V1[101..137]);
    assert!(matches!(Section::try_read_bytes(&bytes), Err(SectionFormatError::InvalidSize(4))));
}

#[test]
fn section_round_trip() {
    let c = cid("01551220b6fbd675f98e2abd22d4ed29fdc83150fedc48597e92dd1a7a24381d44a27451");
    let section = Section::new(c.clone(), Block::new(vec![0x62, 0x65, 0x61, 0x72]));
    assert_eq!(section.length(), 40);
    assert_eq!(section.total_length(), 41);
    let bytes = section.to_bytes();
    assert_eq!(bytes.len(), 41);
    assert_eq!(bytes[0], 40);
    let (back, n) = Section::try_read_bytes(&bytes).unwrap();
    assert_eq!(n, 41);
    assert_eq!(back.cid(), &c);
    assert_eq!(back.block().data(), &[0x62, 0x65, 0x61, 0x72]);
    let (head, n) = Section::try_read_header_bytes(&bytes[..37]).unwrap();
    assert_eq!(n, 41);
    assert_eq!(head.length(), 40);
    assert!(head.block().data().is_empty());
    assert!(matches!(Section::try_read_bytes(&bytes[..40]), Err(SectionFormatError::InsufficientData)));
}

fn writer_fixture() -> (RawCid, Vec<Section>) {
    let root_cid = cid("015512200000000000000000000000000000000000000000000000000000000000000000");
    let cid2 = cid("01551220aaaaaaaaaaaaaaaaaaaaaaaaaaaaaaaaaaaaaaaaaaaaaaaaaaaaaaaaaaaaaaaa");
    let cid3 = cid("01551220ffffffffffffffffffffffffffffffffffffffffffffffffffffffffffffffff");
    let section1 = Section::new(root_cid.clone(), Block::new(vec![1, 2, 3, 4]));
    let section2 = Section::new(cid2, Block::new(vec![5, 6, 7, 8]));
    let section3 = Section::new(cid3, Block::new(vec![9, 10, 11, 12]));
    (root_cid, vec![section1, section2, section3])
}

#[test]
fn test_car_writer() {
    let (root_cid, sections) = writer_fixture();
    let mut writer = CarWriter::new(vec![root_cid]);
    let mut sink = Vec::new();
    let mut buf = [0u8; 32];
    let mut section_to_write = sections;
    loop {
        let written = writer.send_data(&mut buf);
        if written > 0 {
            sink.extend_from_slice(&buf[..written]);
        } else if section_to_write.is_empty() {
            break;
        }
        if let Some(section) = section_to_write.pop() {
            match writer.write_section(&section) {
                Ok(location) => println!("Section written at location: {:?}", location),
                Err(CarWriterError::BufferFull) => {
                    section_to_write.push(section);
                    continue;
                }
            }
        }
    }
    println!("Final CAR data: {:?}", hex::encode(&sink));
    assert_eq!(sink.len(), 182);
}

#[test]
fn writer_output_reads_back() {
    let (root_cid, sections) = writer_fixture();
    let mut writer = CarWriter::with_buffer_size(vec![root_cid.clone()], 1024);
    let mut locations = Vec::new();
    for s in &sections {
        locations.push(writer.write_section(s).unwrap());
    }
    let mut sink = Vec::new();
    let mut buf = [0u8; 7];
    while writer.has_data_to_send() {
        let n = writer.send_data(&mut buf);
        sink.extend_from_slice(&buf[..n]);
    }
    assert_eq!(sink.len(), 182);
    let mut reader = CarReader::new();
    reader.receive_data(&sink, 0);
    reader.read_header().unwrap();
    let header = reader.header().unwrap();
    assert_eq!(header.version(), 1);
    assert_eq!(header.roots(), &[root_cid]);
    let read = read_all_sections(&mut reader, &sink, 4096);
    assert_eq!(read.len(), 3);
    for ((r, s), loc) in read.iter().zip(sections.iter()).zip(locations.iter()) {
        assert_eq!(r.section.cid(), s.cid());
        assert_eq!(r.section.block().data(), s.block().data());
        assert_eq!(&r.location, loc);
    }
}

#[test]
fn writer_buffer_full() {
    let (root_cid, sections) = writer_fixture();
    let mut writer = CarWriter::with_buffer_size(vec![root_cid], 100);
    assert!(writer.write_section(&sections[0]).is_ok());
    assert!(matches!(writer.write_section(&sections[1]), Err(CarWriterError::BufferFull)));
    let mut buf = [0u8; 200];
    assert_eq!(writer.send_data(&mut buf), 100);
    assert!(!writer.has_data_to_send());
    assert_eq!(writer.write_section(&sections[1]).unwrap().offset, 100);
}

#[test]
fn header_roots_mut_changes_roots() {
    let c1 = cid("01711220f88bc853804cf294fe417e4fa83028689fcdb1b1592c5102e1474dbc200fab8b");
    let c2 = cid("0171122069ea0740f9807a28f4d932c62e7c1c83be055e55072c90266ab3e79df63a365b");
    let mut header = CarHeader::new(vec![c1.clone()]);
    header.roots_mut().push(c2.clone());
    assert_eq!(header.roots(), &[c1, c2]);
    let again = CarHeader::from_bytes(&header.to_bytes()).unwrap();
    assert_eq!(again.roots().len(), 2);
    assert_eq!(again.version(), 1);
}

#[test]
fn v1_reader_invalid_section() {
    let mut reader = CarReader::new();
    reader.receive_data(&CAR_V1[..100], 0);
    reader.read_header().unwrap();
    reader.receive_data(&[0x05, 0x02, 0x00, 0x00, 0x00, 0x00], 100);
    assert!(matches!(
        reader.read_section(),
        Err(CarReaderError::InvalidSectionFormat(SectionFormatError::InvalidCid(_)))
    ));
}
