//! A picture in half blocks: each cell shows two pixels, the lower one in the
//! colour of the text and the upper one in that of the ground.
use crate::blocks::less;
use crate::style::{
    Color, Line, Piece, Span, colored, line_of, no_lines, no_spans, piece, pieces_of, push_line,
    push_span, raw, room, rows, span, unstyled,
};
use crate::text::{repeat_char, repeated};
use vstd::prelude::*;

verus! {

pub const ROW_0: [(u32, u32); 48] = [
    (0x020d1e, 0x031120), (0x030f1f, 0x041220), (0x041521, 0x020c1e), (0x03101f, 0x020b1e),
    (0x020b1e, 0x020d1f), (0x051d26, 0x062328), (0x01071c, 0x03101f), (0x0a4135, 0x021020),
    (0x0b4e3b, 0x021221), (0x010a1f, 0x020d1f), (0x051a25, 0x031221), (0x031423, 0x051823),
    (0x031624, 0x031222), (0x041927, 0x031524), (0x062129, 0x041825), (0x07282c, 0x062128),
    (0x05202a, 0x031926), (0x041d29, 0x031826), (0x031d29, 0x031a27), (0x05232c, 0x031826),
    (0x06282e, 0x041c27), (0x04202c, 0x05202a), (0x001a28, 0x041c2a), (0x02292d, 0x031929),
    (0x0e3638, 0x011827), (0x113637, 0x001426), (0x0d3335, 0x001225), (0x05232d, 0x021827),
    (0x082d2f, 0x031927), (0x04222b, 0x021325), (0x082a30, 0x000e23), (0x07252c, 0x031626),
    (0x051f29, 0x021525), (0x092e2f, 0x031925), (0x062128, 0x051d26), (0x031724, 0x051c26),
    (0x062328, 0x072227), (0x062128, 0x092529), (0x010a1e, 0x020b20), (0x0a3d33, 0x020e20),
    (0x09332e, 0x031120), (0x01051b, 0x02091d), (0x041c26, 0x041c25), (0x07302d, 0x062b2b),
    (0x04111e, 0x01071c), (0x041320, 0x020c1f), (0x041220, 0x020d1e), (0x020c1e, 0x04111f),
];

pub const ROW_1: [(u32, u32); 48] = [
    (0x041521, 0x020c1e), (0x030e1e, 0x030f1f), (0x031422, 0x030f1f), (0x061d25, 0x082326),
    (0x051b25, 0x072026), (0x052227, 0x082b2b), (0x052128, 0x052027), (0x041e27, 0x041f27),
    (0x031a27, 0x041e27), (0x051c27, 0x031624), (0x041f28, 0x031725), (0x14453c, 0x062129),
    (0x2a4a4a, 0x0d3b34), (0x27594f, 0x04262b), (0x195643, 0x011826), (0x083536, 0x05262d),
    (0x02272f, 0x05242e), (0x022a32, 0x05272e), (0x032833, 0x062930), (0x062e35, 0x052831),
    (0x052e38, 0x062e33), (0x0c4e3f, 0x032b31), (0x515677, 0x174744), (0x45526b, 0x3e5564),
    (0x094a40, 0x36595b), (0x002734, 0x1d5346), (0x012432, 0x1a5b49), (0x042c35, 0x0d393b),
    (0x06393b, 0x01212c), (0x26644f, 0x11423e), (0x134841, 0x378759), (0x00202d, 0x0b3635),
    (0x0a3837, 0x031b28), (0x1b5743, 0x073330), (0x2a5c51, 0x06322f), (0x2a4749, 0x0c3732),
    (0x14463e, 0x082c2f), (0x053633, 0x062c2e), (0x051e28, 0x072429), (0x04232b, 0x062b2c),
    (0x051f27, 0x07292b), (0x051924, 0x030f20), (0x0a382f, 0x051e24), (0x0a3e31, 0x082e2c),
    (0x051622, 0x04131f), (0x051722, 0x041320), (0x02101f, 0x031321), (0x051722, 0x04111f),
];

pub const ROW_2: [(u32, u32); 48] = [
    (0x061a24, 0x051522), (0x031020, 0x020c1d), (0x062628, 0x07262a), (0x07282a, 0x082c2b),
    (0x062129, 0x071f25), (0x06262a, 0x072a2d), (0x083a33, 0x031423), (0x0a4b3c, 0x093e37),
    (0x0a4e41, 0x083e35), (0x051f2c, 0x051f29), (0x052e31, 0x03202a), (0x194b42, 0x1a4b40),
    (0x1d2f38, 0x181730), (0x2b7042, 0x1f223d), (0x171d35, 0x405c65), (0x3d595d, 0x3e865e),
    (0x4c8766, 0x246550), (0x2c4a4c, 0x155a4a), (0x234b4c, 0x094841), (0x1a5c51, 0x033c3e),
    (0x2a5459, 0x02403f), (0x3b5b67, 0x105f4b), (0x2f434f, 0x2d334c), (0x284845, 0x1b534c),
    (0x3b6764, 0x044642), (0x3e6167, 0x094444), (0x365563, 0x084943), (0x25514e, 0x044642),
    (0x2c6c52, 0x216a54), (0x275251, 0x206650), (0x2e4a4d, 0x114e44), (0x4d8a68, 0x24614d),
    (0x3e585d, 0x418861), (0x161d34, 0x435b67), (0x2a7142, 0x1f203b), (0x1c2836, 0x18142f),
    (0x1e5c4c, 0x1e5f4b), (0x0b6d4e, 0x0d6c4d), (0x04202c, 0x041b29), (0x05262e, 0x06232a),
    (0x05232b, 0x07272c), (0x06212a, 0x031223), (0x093130, 0x093830), (0x07312e, 0x0d513b),
    (0x072629, 0x03121e), (0x062126, 0x072328), (0x041d25, 0x041623), (0x051622, 0x030f1f),
];

pub const ROW_3: [(u32, u32); 48] = [
    (0x041422, 0x031020), (0x041622, 0x041321), (0x072e2e, 0x08322f), (0x0a3832, 0x08302d),
    (0x093733, 0x07282b), (0x0c5f46, 0x0c4f3e), (0x09493d, 0x04282d), (0x0f634a, 0x0f614b),
    (0x0a5a47, 0x157456), (0x052933, 0x145748), (0x033037, 0x09413f), (0x165849, 0x184b45),
    (0x192537, 0x1d2e3a), (0x235741, 0x256946), (0x439757, 0x398e4c), (0x0f1f27, 0x223f35),
    (0x1d1b3c, 0x355353), (0x274042, 0x43855a), (0x1f2f3a, 0x1d213e), (0x243243, 0x27343f),
    (0x232c41, 0x354a52), (0x211f3e, 0x375259), (0x1a163a, 0x355b59), (0x181437, 0x335656),
    (0x1a163a, 0x335356), (0x1c1839, 0x3a655c), (0x22223f, 0x345455), (0x222741, 0x283340),
    (0x212e3f, 0x1e2438), (0x1d2c39, 0x1d223d), (0x263e40, 0x408459), (0x1d1a3b, 0x335152),
    (0x0f1f26, 0x234235), (0x409b56, 0x38904c), (0x21563f, 0x236743), (0x2b4a3f, 0x253b3e),
    (0x29835b, 0x21624f), (0x0d7356, 0x0b6b50), (0x073036, 0x114b44), (0x093638, 0x165a4d),
    (0x09373a, 0x196451), (0x0a3738, 0x175749), (0x0c3d39, 0x185c4a), (0x0a3b39, 0x145345),
    (0x083130, 0x06252a), (0x07262b, 0x072c2c), (0x06262a, 0x0b302d), (0x071c24, 0x092929),
];

pub const ROW_4: [(u32, u32); 48] = [
    (0x041622, 0x031321), (0x06282b, 0x041a25), (0x0d4f3e, 0x073330), (0x0c4338, 0x072f2e),
    (0x05222a, 0x05232b), (0x052a2e, 0x084039), (0x17584e, 0x042f30), (0x1a6859, 0x05443d),
    (0x1d7864, 0x085043), (0x08453f, 0x0c423c), (0x01363d, 0x04353b), (0x1d6e55, 0x105e4e),
    (0x284742, 0x294a4b), (0x162831, 0x275242), (0x3a894d, 0x49a758), (0x3a794c, 0x26543e),
    (0x243740, 0x17292f), (0x473f69, 0x1f2839), (0x423a69, 0x2c2b4b), (0x2c2a4c, 0x29284d),
    (0x302d53, 0x212141), (0x3a3a5d, 0x242347), (0x3c6551, 0x2d3f4a), (0x38315f, 0x2d3252),
    (0x3a3660, 0x2e2f55), (0x39345f, 0x282a4c), (0x38355d, 0x262648), (0x312f54, 0x252647),
    (0x2e2b4f, 0x2d2d52), (0x484471, 0x252e43), (0x384a5b, 0x192935), (0x1b3738, 0x182a2f),
    (0x397f4d, 0x26543c), (0x36804c, 0x47a657), (0x1f4134, 0x224e3b), (0x2c5942, 0x253740),
    (0x206553, 0x1a6850), (0x054844, 0x0b6250), (0x06353b, 0x042a35), (0x0e4e46, 0x15584c),
    (0x135a4a, 0x1e795e), (0x0e453f, 0x1f7c5e), (0x0b3739, 0x1e7b5e), (0x125346, 0x1d795b),
    (0x0f4b3d, 0x0d443c), (0x072a2b, 0x093a31), (0x041d27, 0x0c4637), (0x051a24, 0x051825),
];

pub const ROW_5: [(u32, u32); 48] = [
    (0x031523, 0x08292b), (0x093730, 0x082d2d), (0x0c4f3f, 0x062a2d), (0x093c37, 0x07282c),
    (0x041f29, 0x06272d), (0x073031, 0x0b4539), (0x052b35, 0x134f48), (0x084e47, 0x338e79),
    (0x055f4e, 0x22806c), (0x45a691, 0x175e59), (0x259173, 0x0d5953), (0x276a55, 0x2b6d54),
    (0x158467, 0x25815d), (0x245248, 0x203d41), (0x233c44, 0x1e4335), (0x2e4e4c, 0x203d39),
    (0x63558c, 0x5f5a85), (0x634486, 0x8561b1), (0x553f74, 0x483766), (0x755399, 0x564278),
    (0x6a488c, 0x503a73), (0x886fa4, 0x535270), (0x7e9e6d, 0x56845f), (0x8d5cb4, 0x4d3474),
    (0x8f64b4, 0x544279), (0x885fae, 0x55427a), (0x674a88, 0x4e3d6f), (0x745398, 0x5b4780),
    (0x725296, 0x4a3a6c), (0x423362, 0x563f79), (0x644e8b, 0x8870bb), (0x445c67, 0x364c59),
    (0x1f3c3b, 0x1c3a36), (0x253b45, 0x1e4837), (0x1f4140, 0x1f343d), (0x32925f, 0x337e51),
    (0x3c9760, 0x2a7558), (0x0f584c, 0x0f5650), (0x0a5651, 0x0c4a49), (0x136053, 0x0f594c),
    (0x176452, 0x125c4d), (0x196753, 0x0c3c3d), (0x1a6753, 0x0e4140), (0x196851, 0x0e423d),
    (0x0b3536, 0x05202a), (0x07262b, 0x062229), (0x073431, 0x0a3831), (0x093e34, 0x0b3d32),
];

pub const ROW_6: [(u32, u32); 48] = [
    (0x000920, 0x00091f), (0x04212a, 0x06262c), (0x073030, 0x09443a), (0x073236, 0x073735),
    (0x114c49, 0x072c34), (0x1a6e59, 0x093f3e), (0x1a7761, 0x083437), (0x178567, 0x0b6150),
    (0x0f745d, 0x0c6d57), (0x0e5d59, 0x004445), (0x0c6e61, 0x106358), (0x23725c, 0x296b54),
    (0x2b775d, 0x118c6f), (0x294952, 0x265c4f), (0x22383d, 0x1f2f3a), (0x38545f, 0x2f5549),
    (0x325549, 0x43735b), (0x273441, 0x30334c), (0x2c2654, 0x4b386e), (0x6d455b, 0x463660),
    (0x4f3750, 0x4b3662), (0x33215c, 0x68498e), (0x496c5e, 0x73a267), (0x4d735d, 0x7a5d95),
    (0x482b6c, 0x7b53a1), (0x382f5a, 0x6c4c90), (0x3b2b4c, 0x4a3565), (0x513148, 0x372a54),
    (0x2a2852, 0x5b4583), (0x322a54, 0x2b2348), (0x273c36, 0x284542), (0x507d57, 0x2f564d),
    (0x2d4e44, 0x233e3f), (0x151f2b, 0x1c2a37), (0x2b4250, 0x296054), (0x25473f, 0x2a795d),
    (0x1c7464, 0x2b7356), (0x128774, 0x106f61), (0x0e6158, 0x0c5553), (0x126b5e, 0x084c49),
    (0x156057, 0x094b47), (0x134e4c, 0x0b4343), (0x15584f, 0x0c3b3c), (0x13564a, 0x104b44),
    (0x083433, 0x0a3636), (0x083933, 0x082e2e), (0x0d533f, 0x0a4135), (0x031624, 0x052529),
];

pub const ROW_7: [(u32, u32); 48] = [
    (0x010d22, 0x000921), (0x06272d, 0x062b2f), (0x0d4f40, 0x093937), (0x042b31, 0x03222d),
    (0x0e3c3e, 0x0a3339), (0x1e775d, 0x196c57), (0x186655, 0x1c775f), (0x1c8d6b, 0x198d6a),
    (0x1d9c74, 0x0c6d5a), (0x1c8a6c, 0x0b5853), (0x13826e, 0x096760), (0x139475, 0x0b8471),
    (0x326a65, 0x266552), (0x1c2b31, 0x1d2936), (0x25404c, 0x274750), (0x415a62, 0x405c63),
    (0x394754, 0x3e4a58), (0x291b39, 0x1e173b), (0x724c58, 0x1d1934), (0xc8aaa0, 0xd59e9d),
    (0x7e646d, 0x7b5969), (0x38233c, 0x191536), (0x39264b, 0x3a2c5a), (0x3c2e54, 0x396a4d),
    (0x374648, 0x343c50), (0x422e46, 0x2c1f45), (0x50394c, 0x443146), (0xb89d98, 0xd69c9e),
    (0x947177, 0x261c34), (0x33233c, 0x1b1e42), (0x1a1238, 0x272941), (0x465c60, 0x466460),
    (0x344355, 0x304553), (0x1d2f3e, 0x1c303d), (0x203535, 0x213137), (0x346b65, 0x24795d),
    (0x1caf8b, 0x139d89), (0x0b786d, 0x128370), (0x117167, 0x0d685f), (0x0d5c58, 0x105c55),
    (0x044044, 0x186a59), (0x053a40, 0x1c755d), (0x032735, 0x135247), (0x042531, 0x073738),
    (0x083a37, 0x0f5a44), (0x093a34, 0x0b483b), (0x072d2f, 0x073532), (0x000920, 0x021123),
];

pub const ROW_8: [(u32, u32); 48] = [
    (0x000c22, 0x021024), (0x05222c, 0x051e29), (0x0d5543, 0x0c5341), (0x042f33, 0x043335),
    (0x104443, 0x0d393c), (0x1d735b, 0x1b735b), (0x186f5b, 0x156856), (0x1a9d73, 0x137b62),
    (0x149c73, 0x09705d), (0x13836e, 0x085a56), (0x1e9774, 0x09806c), (0x315755, 0x2a7f6b),
    (0x253e46, 0x252d41), (0x4e9b63, 0x3c6f53), (0x283748, 0x2a3e51), (0x3c3d58, 0x42515e),
    (0x454856, 0x363f51), (0x29232d, 0x5c454f), (0x35404f, 0x938670), (0x265947, 0x9a8877),
    (0x2a523c, 0xc19693), (0x916a70, 0x946571), (0xf3d0bf, 0x755361), (0xd2a69f, 0x4f2e53),
    (0xb98b8e, 0x462750), (0xe2b4ac, 0x604350), (0x826167, 0xa67d82), (0x2b5c40, 0xb9958f),
    (0x104637, 0xa79682), (0x3b414c, 0x7f6c5f), (0x352835, 0x483047), (0x455359, 0x43595d),
    (0x271e46, 0x2f2f4c), (0x365151, 0x38525c), (0x589e6d, 0x417255), (0x293152, 0x2e3253),
    (0x385361, 0x31766a), (0x27765c, 0x097869), (0x177962, 0x0e766c), (0x0a5f59, 0x116c61),
    (0x0a4d4e, 0x146a5d), (0x0c484b, 0x1c695f), (0x07343d, 0x14504d), (0x063337, 0x0c4241),
    (0x09403a, 0x0b4b3f), (0x083b36, 0x0a4238), (0x073833, 0x093f37), (0x010d21, 0x020e22),
];

pub const ROW_9: [(u32, u32); 48] = [
    (0x000b21, 0x010d22), (0x072d30, 0x05252c), (0x073033, 0x0b443c), (0x021c2c, 0x052b32),
    (0x092d37, 0x092e38), (0x062f38, 0x052b37), (0x063b41, 0x07393f), (0x0b504f, 0x086356),
    (0x075b55, 0x08705e), (0x188a72, 0x025a58), (0x217f5d, 0x237760), (0x2f796d, 0x357865),
    (0x27304e, 0x212b4a), (0x214940, 0x3a6f4f), (0x2a4246, 0x334648), (0x393c59, 0x342a54),
    (0x1f1b3c, 0x383c4e), (0x6d5e66, 0x805066), (0xc2ca99, 0xbdb2c1), (0xb4c49b, 0x63cb84),
    (0xe4d0b8, 0x51c172), (0xffe8d3, 0xb0aeae), (0xfddec7, 0xffe6cc), (0xfddbc6, 0xffe7cd),
    (0xfbdac5, 0xffeacf), (0xfbdfc8, 0xffe4cc), (0xffe7d2, 0x9da9a5), (0xdecaaf, 0x52cf70),
    (0xb4c499, 0x6fc890), (0xb9c092, 0xc0a5b7), (0x4f4353, 0x664355), (0x35314c, 0x383652),
    (0x2d314f, 0x291e4a), (0x2c6041, 0x2e4c3e), (0x214340, 0x376954), (0x213845, 0x1d1c3f),
    (0x345657, 0x374b5e), (0x268872, 0x1b8d70), (0x0a776a, 0x0c7064), (0x0d605b, 0x0f685e),
    (0x0d5753, 0x1b7969), (0x0b4a4a, 0x145d59), (0x0e4747, 0x1f7063), (0x0c3f42, 0x125950),
    (0x0d4643, 0x0f4544), (0x093f37, 0x083432), (0x0c463b, 0x0a3c35), (0x031725, 0x021424),
];

pub const ROW_10: [(u32, u32); 48] = [
    (0x051d28, 0x010e22), (0x021123, 0x072a2f), (0x11634a, 0x083434), (0x0a483f, 0x021f2d),
    (0x0c343e, 0x104043), (0x0d4044, 0x0c4746), (0x0f504f, 0x0a4347), (0x07494c, 0x136b5f),
    (0x208272, 0x0e6d62), (0x188377, 0x0f766c), (0x0e836f, 0x23976a), (0x309269, 0x2e8267),
    (0x2d7860, 0x284855), (0x2a6653, 0x1d3b3f), (0x21524b, 0x1a353f), (0x445960, 0x485260),
    (0x4e465a, 0x35314b), (0x1a2a32, 0x221329), (0x977f7f, 0x7ea373), (0xf5bfb5, 0xb9df9c),
    (0xf9d8c4, 0xffcbc3), (0xf9d8c5, 0xfcdbc5), (0xf8dbc5, 0xffdfc9), (0xf9d4c1, 0xf4c3b7),
    (0xfad9c5, 0xf9cebe), (0xf4d8c2, 0xffe4cc), (0xf5d5c1, 0xfdd9c4), (0xf9d6c2, 0xffcbc1),
    (0xf8c3bb, 0xaae094), (0x9e7b7e, 0x768866), (0x333a41, 0x2b1430), (0x505560, 0x49545d),
    (0x1d3042, 0x273a4a), (0x295848, 0x275e3c), (0x36765c, 0x203e47), (0x2b8764, 0x2b6258),
    (0x2bb181, 0x2e7b5c), (0x1da380, 0x228d70), (0x199679, 0x108875), (0x199272, 0x0b5f59),
    (0x177c64, 0x085350), (0x125a51, 0x074044), (0x155c50, 0x07373e), (0x145249, 0x052935),
    (0x0f4740, 0x052730), (0x0a3c37, 0x093c37), (0x000d22, 0x062c2f), (0x08292c, 0x031524),
];

pub const ROW_11: [(u32, u32); 48] = [
    (0x031725, 0x06222a), (0x000b21, 0x00051f), (0x0b5140, 0x137451), (0x08423a, 0x0d5a46),
    (0x092c37, 0x04222e), (0x0e4748, 0x185e56), (0x227a69, 0x175e59), (0x0f5954, 0x135d56),
    (0x095251, 0x0c5c58), (0x15766a, 0x0d6d65), (0x066e67, 0x0c8074), (0x1ba179, 0x1b9e7a),
    (0x1f4851, 0x2b835b), (0x217141, 0x225c4b), (0x399545, 0x266546), (0x255143, 0x26474e),
    (0x3d3b57, 0x54505f), (0x3a4d4c, 0x224141), (0x26a356, 0x4d936e), (0x3b9862, 0xe2c5b9),
    (0xacb19a, 0xffdacb), (0xfcd1c3, 0xf1d0bd), (0xffdecc, 0xdcb6a8), (0xf9c6bb, 0xf4c0b5),
    (0xfac8bc, 0xf3c0b4), (0xffdfce, 0xdfbaab), (0xf9cec0, 0xf3d0be), (0xa2a690, 0xffd9cb),
    (0x34955d, 0xd9bfb1), (0x2f904f, 0x3c795b), (0x4f4a56, 0x486757), (0x2c4043, 0x3d324c),
    (0x356f42, 0x1b393f), (0x59c353, 0x398655), (0x2f8b4b, 0x2c744a), (0x193249, 0x226c58),
    (0x278d6d, 0x25ad8b), (0x0c8173, 0x0c8676), (0x0f7266, 0x0c7869), (0x167064, 0x147868),
    (0x248872, 0x187364), (0x27806a, 0x1a6d5f), (0x0b3d40, 0x0c4342), (0x062f37, 0x073236),
    (0x011829, 0x062d33), (0x001226, 0x052b30), (0x021726, 0x011425), (0x051b27, 0x08282c),
];

pub const ROW_12: [(u32, u32); 48] = [
    (0x031422, 0x051c27), (0x031423, 0x021122), (0x0b483d, 0x0d4b3e), (0x052f31, 0x073736),
    (0x031e2b, 0x226e62), (0x0c393e, 0x267568), (0x0a3e44, 0x1c6c62), (0x105451, 0x24796c),
    (0x196d62, 0x1a6d63), (0x11645b, 0x0b5e5a), (0x189178, 0x138b78), (0x1fb286, 0x219a73),
    (0x2d9864, 0x2b6a53), (0x3c835a, 0x1f4048), (0x3b665a, 0x3d7a4d), (0x264048, 0x3a703e),
    (0x10202b, 0x374b4c), (0x281944, 0x433f59), (0x608853, 0x51bb51), (0x78c45c, 0x42b656),
    (0x77c357, 0x2ca151), (0x47514a, 0x555550), (0x361d30, 0xa98c87), (0x291c26, 0xf4c4b7),
    (0x261923, 0xf3c2b7), (0x341b29, 0xa48981), (0x523348, 0x513c42), (0x57914f, 0x329a4c),
    (0x659d4f, 0x46b554), (0x403e45, 0x465945), (0x1a1932, 0x3e2c4e), (0x1a2b35, 0x306337),
    (0x304e53, 0x407149), (0x468263, 0x386050), (0x428756, 0x29424d), (0x246651, 0x3a8158),
    (0x1f9877, 0x2ea371), (0x20ad8d, 0x14947f), (0x19816f, 0x157c6d), (0x14655a, 0x0c5c57),
    (0x207a6a, 0x135c56), (0x08353e, 0x08333c), (0x0a3b3f, 0x19675a), (0x0b3a3c, 0x2a896f),
    (0x031c2b, 0x021b2a), (0x031a29, 0x021527), (0x041b27, 0x041b27), (0x041724, 0x041825),
];

pub const ROW_13: [(u32, u32); 48] = [
    (0x061d26, 0x000c1f), (0x031523, 0x031423), (0x05262b, 0x0b4b3b), (0x0d3537, 0x093935),
    (0x0c363a, 0x0f3b3c), (0x0f393e, 0x114647), (0x1d6259, 0x093039), (0x1d695c, 0x0f4345),
    (0x11524e, 0x1d7365), (0x146c63, 0x1c7e6a), (0x0e7168, 0x178973), (0x1d8369, 0x159d7b),
    (0x1f525a, 0x217561), (0x141637, 0x142a3d), (0x151e40, 0x2e614a), (0x275045, 0x63ad67),
    (0x427952, 0x64a467), (0x2b494e, 0x274448), (0x25304c, 0x180f35), (0x262e47, 0x253646),
    (0x253b50, 0x365558), (0x43875c, 0x203f4d), (0x21334b, 0x233143), (0x306146, 0x13262b),
    (0x2d5a42, 0x12232a), (0x284250, 0x2a3748), (0x4ea371, 0x22434b), (0x284352, 0x27414f),
    (0x252f45, 0x1a1f38), (0x28364f, 0x171636), (0x2a4251, 0x28484e), (0x355953, 0x6eb76c),
    (0x223650, 0x6fbe6d), (0x192042, 0x316052), (0x171d34, 0x0f1436), (0x131d3d, 0x193f4a),
    (0x23625a, 0x24906e), (0x095650, 0x0a7169), (0x064a4f, 0x116c60), (0x125b55, 0x1f876e),
    (0x196a58, 0x207e67), (0x217562, 0x0e4145), (0x17524b, 0x175951), (0x13534a, 0x093235),
    (0x06272e, 0x06252e), (0x031926, 0x041f2a), (0x06222a, 0x06262b), (0x031423, 0x041b25),
];

pub const ROW_14: [(u32, u32); 48] = [
    (0x041924, 0x051924), (0x062027, 0x031524), (0x031823, 0x041925), (0x093034, 0x021624),
    (0x19594f, 0x18544a), (0x123e3f, 0x104243), (0x2a876a, 0x237762), (0x1b5f57, 0x145751),
    (0x0d4048, 0x0e474d), (0x043d43, 0x0a4b4d), (0x155e51, 0x055b59), (0x25846f, 0x1e765c),
    (0x41ac69, 0x17473f), (0x31694e, 0x0e262e), (0x191f39, 0x162432), (0x101733, 0x192938),
    (0x0e1427, 0x1b2f41), (0x10142d, 0x111438), (0x122728, 0x25413f), (0x3c7840, 0x355d47),
    (0x13163a, 0x202a47), (0x1f2f4a, 0x2a474e), (0x161d3f, 0x1a1f43), (0x366b48, 0x468b54),
    (0x396f4b, 0x468853), (0x1d2748, 0x21384a), (0x233c4c, 0x4bad6f), (0x171e43, 0x284651),
    (0x386a40, 0x2f5044), (0x1f3f2e, 0x2b4e42), (0x090825, 0x1a1d41), (0x0e1524, 0x192141),
    (0x11142b, 0x1a233b), (0x242840, 0x1e2b3b), (0x2d534c, 0x0b1323), (0x50a664, 0x123833),
    (0x1f6a5f, 0x1f5743), (0x247861, 0x105f54), (0x166154, 0x00333f), (0x155d56, 0x0f4c4c),
    (0x062a34, 0x0e4247), (0x207061, 0x207e61), (0x267d62, 0x185f50), (0x123c3b, 0x0d3b3b),
    (0x0c3c38, 0x05212c), (0x105d44, 0x093433), (0x09262a, 0x051d27), (0x041722, 0x041622),
];

pub const ROW_15: [(u32, u32); 48] = [
    (0x062429, 0x041422), (0x031623, 0x031923), (0x031123, 0x092b31), (0x041424, 0x06212c),
    (0x0e3234, 0x113539), (0x164c48, 0x1b544c), (0x339371, 0x369876), (0x0a333c, 0x23695e),
    (0x12474a, 0x042837), (0x3ab88d, 0x0a4141), (0x216367, 0x2a8467), (0x1b2c42, 0x1c445a),
    (0x233a55, 0x356365), (0x36605b, 0x6db56b), (0x253f50, 0x273947), (0x222f41, 0x2c3a4b),
    (0x263041, 0x212f4a), (0x1f2739, 0x181e30), (0x223339, 0x162428), (0x3b7641, 0x3f7d41),
    (0x1d312e, 0x0e1120), (0x101732, 0x0e152b), (0x100e2d, 0x111131), (0x184739, 0x19493b),
    (0x1d5c3e, 0x1b533e), (0x100f2c, 0x100e2e), (0x0f1430, 0x0e112b), (0x243d32, 0x0f1526),
    (0x3c8842, 0x427e43), (0x285042, 0x0d122c), (0x2b4751, 0x10152c), (0x315b53, 0x1b2443),
    (0x336f42, 0x2d494b), (0x254648, 0x274c3d), (0x375b59, 0x62a363), (0x233954, 0x3e7367),
    (0x203645, 0x1c254b), (0x1b4055, 0x1f595b), (0x2f9984, 0x268468), (0x1c735b, 0x083c40),
    (0x0b303b, 0x123b40), (0x1a5d51, 0x257866), (0x22735b, 0x32a47a), (0x164845, 0x124342),
    (0x042229, 0x082a2f), (0x072d2e, 0x083732), (0x020e20, 0x031122), (0x031321, 0x031121),
];

pub const ROW_16: [(u32, u32); 48] = [
    (0x062126, 0x082d2b), (0x041622, 0x051b24), (0x020e20, 0x020b1f), (0x00051b, 0x01071d),
    (0x0c2d31, 0x0c3131), (0x144e47, 0x103638), (0x1d504b, 0x1c5c51), (0x3ba882, 0x26826b),
    (0x3ab789, 0x144642), (0x275556, 0x389f86), (0x283950, 0x244a60), (0x263951, 0x24304a),
    (0x1b253d, 0x1b283f), (0x121c34, 0x1d2b4b), (0x19233e, 0x1e2d4a), (0x2a3951, 0x234357),
    (0x2b3d57, 0x213652), (0x2b3d55, 0x233752), (0x262f55, 0x1a224e), (0x306144, 0x306040),
    (0x344f40, 0x335342), (0x262d50, 0x1c284a), (0x212c50, 0x1f2648), (0x367053, 0x255746),
    (0x3b7d56, 0x2c6e4d), (0x1b234c, 0x1e2447), (0x2f5050, 0x1a2644), (0x377241, 0x3f7a45),
    (0x375e5e, 0x1a2f3c), (0x254658, 0x274d42), (0x244252, 0x285f41), (0x355d5a, 0x285d41),
    (0x284d5a, 0x254649), (0x1f2f46, 0x1f2a4a), (0x131a32, 0x1e2a4a), (0x12182f, 0x1d293f),
    (0x23324e, 0x1c2d43), (0x28494f, 0x305866), (0x33745b, 0x29746f), (0x43c28e, 0x278b6e),
    (0x277a61, 0x236d5e), (0x143d3e, 0x19554b), (0x123b3a, 0x0f383a), (0x051725, 0x031223),
    (0x051d26, 0x031a25), (0x082b2c, 0x072e2f), (0x082027, 0x071d25), (0x031220, 0x041822),
];

pub const ROW_17: [(u32, u32); 48] = [
    (0x061c23, 0x072125), (0x01081c, 0x01081d), (0x030e20, 0x020e1f), (0x01091c, 0x01071b),
    (0x122b31, 0x0f3b3b), (0x305653, 0x388870), (0x051423, 0x2f5e56), (0x15463e, 0x174b47),
    (0x328a6c, 0x34b384), (0x356060, 0x419979), (0x306f69, 0x34535c), (0x2b5d5f, 0x274456),
    (0x1e424d, 0x171b38), (0x142c36, 0x0c1429), (0x1f2542, 0x1b203b), (0x2a3c4f, 0x467764),
    (0x293e4a, 0x53ab70), (0x2f4d54, 0x469168), (0x2c4752, 0x499069), (0x44874b, 0x4c9b54),
    (0x324f47, 0x457e51), (0x272d42, 0x2e364a), (0x1e3253, 0x1f2c50), (0x54906b, 0x488561),
    (0x529069, 0x4a8c62), (0x1f315b, 0x1f315c), (0x2d644b, 0x35664f), (0x286547, 0x275e41),
    (0x5dac75, 0x79c881), (0x90ee89, 0x96ea8b), (0x8ee988, 0x98ec8c), (0x5baf6f, 0x76cb7d),
    (0x264254, 0x1b374e), (0x1a2341, 0x1b2f43), (0x153135, 0x090920), (0x2b6d62, 0x17253a),
    (0x30756a, 0x2d5a62), (0x2a545c, 0x3b8471), (0x2c5c51, 0x48ae73), (0x2e6b62, 0x43ba87),
    (0x266553, 0x1f6656), (0x113b3b, 0x154443), (0x07202a, 0x216353), (0x041622, 0x041321),
    (0x051b24, 0x051f26), (0x041923, 0x062428), (0x01061d, 0x00011a), (0x041420, 0x051421),
];

pub const ROW_18: [(u32, u32); 48] = [
    (0x041220, 0x041421), (0x01061d, 0x00061d), (0x020a1f, 0x020a20), (0x00051a, 0x000419),
    (0x193c3a, 0x224746), (0x204542, 0x1d4340), (0x041522, 0x00021a), (0x296b55, 0x246b53),
    (0x314b52, 0x347362), (0x22273e, 0x272843), (0x1f3246, 0x2b555b), (0x294856, 0x2e6d65),
    (0x152e3c, 0x277164), (0x133437, 0x298067), (0x265d54, 0x295d60), (0x285557, 0x2a505e),
    (0x306167, 0x35646f), (0x253f53, 0x212d4c), (0x233f4c, 0x1f2c49), (0x207546, 0x317a48),
    (0x282d43, 0x20293c), (0x253347, 0x242f45), (0x1e294d, 0x203758), (0x387954, 0x538f68),
    (0x357250, 0x508c66), (0x1e274c, 0x1f2e56), (0x1f3344, 0x275447), (0x254d3d, 0x246740),
    (0x1f2a49, 0x2f515a), (0x1f4052, 0x5ca56f), (0x1d4352, 0x5fa973), (0x2a5a5f, 0x2d5455),
    (0x327f6e, 0x27515d), (0x256555, 0x337e71), (0x0f202e, 0x28705e), (0x122535, 0x174245),
    (0x284c54, 0x14243b), (0x1e2a47, 0x2e5661), (0x2f564b, 0x233b51), (0x4b905d, 0x1c2a3d),
    (0x3c8963, 0x2e7955), (0x257157, 0x0f2e2e), (0x061623, 0x00061c), (0x01091e, 0x041323),
    (0x01071f, 0x030d20), (0x020b1e, 0x020c1f), (0x01061d, 0x00051d), (0x030e1f, 0x030d1e),
];

pub const ROW_19: [(u32, u32); 48] = [
    (0x020a1d, 0x020b1e), (0x00061d, 0x00051c), (0x01081e, 0x02091e), (0x01081e, 0x01051d),
    (0x01071d, 0x071724), (0x0a1d25, 0x1e403b), (0x246151, 0x225a48), (0x1d2c47, 0x24665e),
    (0x101233, 0x1a1c35), (0x181e3a, 0x1f2740), (0x191f3a, 0x121532), (0x141a37, 0x181b38),
    (0x0c102b, 0x111b33), (0x0b0e24, 0x11212f), (0x0d0d31, 0x1b343f), (0x1a2d39, 0x2b5c4a),
    (0x285247, 0x192d41), (0x141e3c, 0x1d3149), (0x191f3b, 0x1f3946), (0x262845, 0x1f563c),
    (0x1a2938, 0x36454b), (0x192640, 0x1f2c43), (0x151639, 0x18193d), (0x1e5844, 0x216046),
    (0x1e5643, 0x205a43), (0x141537, 0x191a3e), (0x16243e, 0x1a2742), (0x15233a, 0x232342),
    (0x16243d, 0x1f3446), (0x16243d, 0x244750), (0x141e3b, 0x1d3647), (0x295043, 0x1b3545),
    (0x192c38, 0x285245), (0x0d0e31, 0x1a323e), (0x0b1123, 0x0b1323), (0x0e132f, 0x0f132c),
    (0x0c1128, 0x1d2740), (0x0d0c2e, 0x0e1230), (0x3f7b53, 0x4d9858), (0x264940, 0x233f3f),
    (0x140f34, 0x17143c), (0x20474f, 0x255f58), (0x194b3f, 0x123733), (0x000118, 0x00051b),
    (0x01081e, 0x01081e), (0x01091d, 0x020a1e), (0x00051c, 0x01061c), (0x02091d, 0x030d1e),
];

/// A colour by its red, green and blue, eight bits each.
pub open spec fn color_of(c: u32) -> Color {
    Color::Rgb((c / 65536) as u8, (c / 256 % 256) as u8, (c % 256) as u8)
}

/// A row of cells behind `pad` blanks.
pub open spec fn tile_row(tiles: Seq<(u32, u32)>, pad: nat) -> Seq<Piece> {
    seq![raw(repeated(' ', pad))] + tiles.map_values(
        |t: (u32, u32)| piece("▄"@, colored(color_of(t.0)).on(color_of(t.1))),
    )
}

/// The cells of a row: the colours of the lower and the upper pixel.
pub open spec fn tiles(i: int) -> Seq<(u32, u32)> {
    if i == 0 {
        ROW_0@
    } else if i == 1 {
        ROW_1@
    } else if i == 2 {
        ROW_2@
    } else if i == 3 {
        ROW_3@
    } else if i == 4 {
        ROW_4@
    } else if i == 5 {
        ROW_5@
    } else if i == 6 {
        ROW_6@
    } else if i == 7 {
        ROW_7@
    } else if i == 8 {
        ROW_8@
    } else if i == 9 {
        ROW_9@
    } else if i == 10 {
        ROW_10@
    } else if i == 11 {
        ROW_11@
    } else if i == 12 {
        ROW_12@
    } else if i == 13 {
        ROW_13@
    } else if i == 14 {
        ROW_14@
    } else if i == 15 {
        ROW_15@
    } else if i == 16 {
        ROW_16@
    } else if i == 17 {
        ROW_17@
    } else if i == 18 {
        ROW_18@
    } else {
        ROW_19@
    }
}

/// The picture in the middle of `width` columns.
pub open spec fn mascot_rows(width: nat) -> Seq<Seq<Piece>> {
    let pad = room(width, 48) / 2;
    Seq::new(20, |i: int| tile_row(tiles(i), pad))
}

fn color(c: u32) -> (r: Color)
    ensures
        r == color_of(c),
{
    Color::Rgb((c / 65536) as u8, (c / 256 % 256) as u8, (c % 256) as u8)
}

fn tile_line(tiles: &[(u32, u32); 48], pad: usize) -> (r: Line)
    ensures
        r@ == tile_row(tiles@, pad as nat),
{
    let mut spans = no_spans();
    let ghost goal = tile_row(tiles@, pad as nat);
    push_span(&mut spans, Span { text: repeat_char(' ', pad), style: unstyled() });
    for i in 0..48
        invariant
            goal == tile_row(tiles@, pad as nat),
            pieces_of(spans@) == goal.take(i + 1),
    {
        let (low, high) = tiles[i];
        push_span(&mut spans, span("▄", colored(color(low)).on(color(high))));
        assert(goal.take(i + 2) =~= goal.take(i + 1).push(goal[i + 1]));
    }
    assert(goal.take(49) =~= goal);
    line_of(spans)
}

/// The picture, in the middle where there is more room than it takes.
pub fn mascot_halfblock_lines(total_width: usize) -> (r: Vec<Line>)
    ensures
        rows(r@) == mascot_rows(total_width as nat),
{
    let pad = less(total_width, 48) / 2;
    let mut lines = no_lines();
    push_line(&mut lines, tile_line(&ROW_0, pad));
    push_line(&mut lines, tile_line(&ROW_1, pad));
    push_line(&mut lines, tile_line(&ROW_2, pad));
    push_line(&mut lines, tile_line(&ROW_3, pad));
    push_line(&mut lines, tile_line(&ROW_4, pad));
    push_line(&mut lines, tile_line(&ROW_5, pad));
    push_line(&mut lines, tile_line(&ROW_6, pad));
    push_line(&mut lines, tile_line(&ROW_7, pad));
    push_line(&mut lines, tile_line(&ROW_8, pad));
    push_line(&mut lines, tile_line(&ROW_9, pad));
    push_line(&mut lines, tile_line(&ROW_10, pad));
    push_line(&mut lines, tile_line(&ROW_11, pad));
    push_line(&mut lines, tile_line(&ROW_12, pad));
    push_line(&mut lines, tile_line(&ROW_13, pad));
    push_line(&mut lines, tile_line(&ROW_14, pad));
    push_line(&mut lines, tile_line(&ROW_15, pad));
    push_line(&mut lines, tile_line(&ROW_16, pad));
    push_line(&mut lines, tile_line(&ROW_17, pad));
    push_line(&mut lines, tile_line(&ROW_18, pad));
    push_line(&mut lines, tile_line(&ROW_19, pad));
    assert(rows(lines@) =~= mascot_rows(total_width as nat));
    lines
}

} // verus!
