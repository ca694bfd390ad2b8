use rust_dis::listing::handle_code_section;

// Code regions with branches, loads and data between their functions: the
// words of the region, its virtual base, the number of its functions, and a
// digest (FNV-1a) of their bounds, names and listings in order of address.
const REGIONS: &[(&[u16], u64, usize, u64)] = &[
    (
        &[
            0x0009, 0x0009, 0x6013, 0x7f04, 0x4f26, 0x4f22, 0x4f22, 0xe105, 0xaffe, 0x4f22,
            0xaffc, 0x6013, 0xa001, 0x2f96, 0x2f96, 0x000b, 0xafff, 0x2fe6, 0x2f96, 0x6103,
            0x7f04, 0x4f26, 0x8f01, 0x0009, 0x8fff, 0x000b, 0xd703, 0xaffc, 0x6103, 0xdc00,
            0x2f17, 0xecec,
        ],
        0x0,
        2,
        0xfd70bb3b5fcde4d6,
    ),
    (
        &[
            0x0009, 0x0009, 0x6103, 0xaffe, 0x2f86, 0x0009, 0x0009, 0x000b, 0x2f86, 0xa000,
            0xe105, 0x000b, 0xd403, 0x2fe6, 0xafff, 0x7f04,
        ],
        0x1000,
        2,
        0x40f74b2dfeb37ed9,
    ),
    (
        &[
            0x0009, 0x0009, 0x2f96, 0xa003, 0x8b00, 0x9203, 0xafff, 0xe105, 0x8bfc, 0xd002,
            0x0009, 0x000b, 0xd201, 0x0166, 0x0009, 0x2f86, 0xa002, 0xd604, 0xd601, 0x4f26,
            0x0009, 0x2f96, 0xb002, 0x6103, 0x6013, 0x000b, 0x0009, 0x6103, 0x6103, 0xa000,
            0xb002, 0x7568,
        ],
        0x1000,
        2,
        0x34d0c0c27fe31107,
    ),
    (
        &[
            0x0009, 0x0009, 0xa002, 0x7f04, 0x9101, 0xe105, 0x4f26, 0x6013, 0x6013, 0x000b,
            0x9305, 0x2f96, 0x4f26, 0xde01, 0x9a03, 0x2d57, 0x000b, 0xe105, 0x2fe6, 0x000b,
        ],
        0x6004000,
        2,
        0x6e28ec39ea20e4b8,
    ),
    (
        &[
            0x0009, 0x0009, 0xe105, 0x6103, 0x0009, 0xde05, 0x2f96, 0x4f22, 0x6013, 0xe105,
            0x8dfe, 0x0009, 0x0009, 0x0009, 0xa003, 0xdb05, 0xbffe, 0xa003, 0x0009, 0x2fe6,
            0x2f17, 0x0009, 0x000b, 0x0009, 0xdf00, 0x2f86, 0x8b00, 0x4f22, 0xe105, 0x0009,
            0x2fe6, 0x000b,
        ],
        0x6004000,
        2,
        0x733aab1dd38e2b5b,
    ),
    (
        &[
            0x0009, 0x0009, 0x000b, 0x89fc, 0x2f96, 0x0009, 0x000b, 0x0009, 0x9306, 0xa6f1,
            0x9b03, 0x9206, 0xd704, 0x8fff, 0x2fe6, 0x2f96, 0x2f86, 0x4f26, 0xe105, 0x2fe6,
            0xd202, 0xa001, 0x2f96, 0xa000, 0x2fe6, 0xd705, 0x0009, 0xe105, 0x6103, 0xa001,
            0x6013, 0x6013, 0x4f22, 0x4f26, 0x89fe, 0x000b, 0x8bfc, 0x672b, 0x4f26, 0x6013,
        ],
        0x6004000,
        2,
        0x7fe30c8de7082f03,
    ),
    (
        &[
            0x0009, 0x0009, 0x7f04, 0x7f04, 0xc09f, 0x2fe6, 0x6103, 0x8dfc, 0x0009, 0x2f96,
            0xd401, 0xbffe, 0x6013, 0x0009, 0x7f04, 0x4f22, 0xdb04, 0x000b, 0x000b, 0xe105,
            0x89ff, 0xdc00, 0x0056, 0x6013, 0x4f22, 0x9503, 0xb002, 0x9a02, 0x4f22, 0x2fe6,
            0x9007, 0x000b,
        ],
        0x6004000,
        2,
        0x5445b75f6b0b3285,
    ),
    (
        &[
            0x0009, 0x0009, 0x2f86, 0x7f04, 0x6013, 0x8ffc, 0xaffc, 0x8900, 0xd901, 0x89fe,
            0x9c00, 0x7f04, 0x94ec, 0x000b, 0x19bc, 0x6013, 0xdf02, 0x2f86, 0x000b, 0x4f26,
            0x6013, 0x0009, 0xe82d, 0x2f17, 0x8f02, 0x2f86, 0xd1d1, 0x2f17, 0x0009, 0x2fe6,
            0x8ffe, 0x000b, 0xc9ff, 0x6103, 0x0009, 0x9d05, 0x8bfe, 0xd605, 0x0e5b, 0x0009,
        ],
        0x6004000,
        3,
        0x6e9619012cff14a9,
    ),
    (
        &[
            0x0009, 0x0009, 0x8256, 0x4f22, 0x000b, 0x2f86, 0x2fe6, 0x2fe6, 0x0009, 0x8dfc,
            0x0009, 0x2f96, 0xd502, 0x9200, 0xd002, 0x2f96, 0x6103, 0xa000, 0x2f17, 0x7f04,
            0x000b, 0x4f22, 0x2f86, 0x2f96, 0x9e03, 0x4f26, 0x7c26, 0x4f26, 0xe105, 0xafff,
            0x000b, 0x000b,
        ],
        0x6004000,
        2,
        0x45c6dc6d35dce8b2,
    ),
    (
        &[
            0x0009, 0x0009, 0x6a45, 0x497f, 0x000b, 0x4f22, 0x7f04, 0x6103, 0x2fe6, 0x000b,
            0x9403, 0xd9cc, 0xd204, 0x2f17, 0xb002, 0x09ae, 0x000b, 0xf9d2, 0x2f86, 0x0009,
            0x7439, 0x4f26, 0x000b, 0x8dfe, 0x8b00, 0x2f17, 0xaffc, 0x000b, 0x4f22, 0xe105,
            0x73f2, 0x4df7,
        ],
        0x0,
        2,
        0x63e4515a48dd6c98,
    ),
    (
        &[
            0x0009, 0x0009, 0x9006, 0x2f96, 0x7f04, 0x2f86, 0x9b01, 0x0009, 0x4f22, 0x2f96,
            0x4f26, 0xd805, 0xafff, 0x1dc7, 0xbffe, 0x6103, 0x0009, 0x0009, 0x6103, 0x000b,
            0x8dfe, 0x2f96, 0x7f04, 0xde01, 0x2f17, 0x9a05, 0x9b05, 0xdd03, 0x6013, 0xafff,
            0x0009, 0x000b, 0x000b, 0x6013, 0x6103, 0xe105, 0x7f04, 0x0009, 0x7f04, 0xe105,
        ],
        0x6004000,
        2,
        0xfbf1339318e63fd8,
    ),
    (
        &[
            0x0009, 0x0009, 0x4f22, 0xe105, 0x000b, 0x0009, 0x2f17, 0xe105, 0x4f26, 0xbca4,
            0x000b, 0x9500, 0xe105, 0x0009, 0x0009, 0xe105, 0x2f96, 0x2f17, 0xb000, 0xd800,
            0x2f17, 0x2f86, 0x4c31, 0x6013, 0xe105, 0xaffe, 0x8f01, 0x000b, 0x2f17, 0x2f96,
            0x2f96, 0x9302, 0xd303, 0x9904, 0xd204, 0x9702, 0x000b, 0x000b, 0x000b, 0xe105,
        ],
        0x0,
        2,
        0xf82fd5e49e95dc49,
    ),
    (
        &[
            0x0009, 0x0009, 0x0009, 0x9002, 0x9f04, 0x4f26, 0x7f04, 0x89ff, 0x7f04, 0x000b,
            0x2fe6, 0x9c00, 0xd902, 0xc3bf, 0xd804, 0x7c5f, 0x000b, 0x7f04, 0x2fe6, 0xe105,
            0xd002, 0xdc01, 0x000b, 0xe105, 0xe105, 0x9c06, 0x2fe6, 0x9c03, 0x7f04, 0xb002,
            0x0009, 0xd300, 0xdd01, 0xa003, 0xa003, 0x4f26, 0xdb05, 0xb27a, 0x4f26, 0x6013,
        ],
        0x1000,
        2,
        0xf9bdb91208df35b4,
    ),
    (
        &[
            0x0009, 0x0009, 0xb000, 0x7f04, 0xafff, 0x2f86, 0x8bfe, 0x0009, 0xdf05, 0x000b,
            0x2f86, 0xa000, 0xdb00, 0x7f04, 0x4f26, 0x0009, 0x0009, 0xb002, 0x6103, 0x7f04,
            0x7f04, 0x2f86, 0x000b, 0x6103, 0x0009, 0x6103, 0xde01, 0xd004, 0x000b, 0x9e00,
            0x7f04, 0xb002,
        ],
        0x6004000,
        2,
        0x86bf7b01972ab36e,
    ),
    (
        &[
            0x0009, 0x0009, 0xa001, 0xd504, 0x9501, 0x0009, 0x8bfc, 0x2f96, 0xafff, 0x2fe6,
            0x9107, 0xaffc, 0x9303, 0xb000, 0x2fe6, 0x0009, 0x0009, 0x0009, 0xa001, 0x000b,
            0x0009, 0x2fe6, 0x2f96, 0x000b,
        ],
        0x6004000,
        2,
        0x46fdbbd49e6d86fa,
    ),
    (
        &[
            0x0009, 0x0009, 0x2fe6, 0x89ff, 0x000b, 0x000b, 0x2fe6, 0xda01, 0x000b, 0xf591,
            0x0009, 0x9aab, 0x2fe6, 0xafff, 0x2f96, 0x2f86, 0x2f86, 0xe105, 0x000b, 0xdc00,
            0x0009, 0x2f86, 0x9702, 0x2f96,
        ],
        0x1000,
        3,
        0x9c8741a36c89164b,
    ),
    (
        &[
            0x0009, 0x0009, 0x4f22, 0x6013, 0x2f96, 0xafff, 0x0009, 0xde00, 0x000b, 0xa002,
            0x000b, 0xd400, 0x2fe6, 0x6103, 0xb000, 0x9b06, 0x000b, 0x6013, 0x0009, 0x4f22,
        ],
        0x0,
        2,
        0xabe798043196a613,
    ),
    (
        &[
            0x0009, 0x0009, 0xa003, 0xbffe, 0x4f22, 0x6103, 0x7f04, 0xe105, 0xda02, 0x0009,
            0x2fe6, 0x9d02, 0xdc02, 0x000b, 0xd103, 0xe105, 0xbffe, 0x8d00, 0x2f86, 0x51c6,
            0x7f04, 0x6103, 0xbffe, 0x7f04, 0x0009, 0x4f26, 0xd304, 0xd801, 0x000b, 0x24c3,
            0xaffe, 0x4f22,
        ],
        0x6004000,
        2,
        0x1fd066efc77a40a6,
    ),
    (
        &[
            0x0009, 0x0009, 0xb002, 0xd904, 0x2f86, 0x8d02, 0x0009, 0xa000, 0x89fc, 0x4f22,
            0xd305, 0x2f86, 0x99da, 0x9302, 0xe7a6, 0xe105, 0xb000, 0xb002, 0xdc05, 0xa001,
            0x0009, 0x8f02, 0x4f22, 0xa002, 0x000b, 0x2f86, 0xb000, 0x8ffc, 0x000b, 0x4f22,
            0xafff, 0x213d, 0x6013, 0xdc01, 0x884c, 0x6103, 0xb7e7, 0xa002, 0x000b, 0xd302,
        ],
        0x0,
        2,
        0x48a01600c5db905e,
    ),
    (
        &[
            0x0009, 0x0009, 0x000b, 0x7f04, 0x6013, 0x2f96, 0x6103, 0x124d, 0x7f04, 0x2f17,
            0x6103, 0x0009, 0xa003, 0x2f17, 0x4f22, 0xd323, 0x4f22, 0xa003, 0x4f22, 0x000b,
            0x2f86, 0x000b, 0xd302, 0xe105,
        ],
        0x6004000,
        2,
        0x9e06c3ec6be6e69e,
    ),
    (
        &[
            0x0009, 0x0009, 0xbffe, 0x2f96, 0x0009, 0x000b, 0x2fe6, 0x000b, 0x0009, 0x4f22,
            0xd203, 0xc1b6, 0xde00, 0x6013, 0x7f04, 0x7f04, 0x4f26, 0x0009, 0x2fe6, 0x645e,
            0x9c05, 0xa001, 0xe105, 0x4f26, 0x2f17, 0xde05, 0x000b, 0x4f26, 0xaffc, 0x6103,
            0xbffe, 0x0009, 0xd403, 0xafff, 0x0009, 0xa001, 0x000b, 0xa002, 0x0009, 0xdc05,
        ],
        0x1000,
        3,
        0xed109b49b5e863c3,
    ),
    (
        &[
            0x0009, 0x0009, 0x2f17, 0x2fe6, 0x4b34, 0x000b, 0xda04, 0x2f17, 0xdb03, 0x0009,
            0xd703, 0x000b, 0x0009, 0x4f26, 0x4f22, 0xb000, 0x0009, 0xd101, 0x4f26, 0x000b,
            0xa001, 0x2f17, 0x0009, 0x6013, 0x4f26, 0x000b, 0x2f96, 0xd900, 0x000b, 0x2f96,
            0xd201, 0xafff,
        ],
        0x0,
        2,
        0xf56019909b79bc5b,
    ),
    (
        &[
            0x0009, 0x0009, 0x6013, 0x2f96, 0xb108, 0x4f22, 0x8bff, 0x2fe6, 0x2f86, 0xe105,
            0x000b, 0x0009, 0xc338, 0x2fe6, 0x5bac, 0x7f04, 0x9e05, 0x9a03, 0xd404, 0x0009,
            0x000b, 0x4f22, 0x2f96, 0x2f86, 0x8d00, 0xa001, 0x4f26, 0x0009, 0x6013, 0x6103,
            0xa2cb, 0x0009,
        ],
        0x0,
        2,
        0xf28075a0ca497324,
    ),
    (
        &[
            0x0009, 0x0009, 0x2f86, 0x7f04, 0x9b05, 0x2fe6, 0x7f04, 0xbffe, 0x2f17, 0xa000,
            0x0009, 0x8f8a, 0x8bfc, 0x9500, 0x0009, 0x6013, 0x6013, 0xd001, 0x2f96, 0xe105,
            0xaffc, 0x4f22, 0x2f96, 0xd204, 0x000b, 0x9c00, 0x2f86, 0x9603, 0x8f00, 0x0009,
            0x0009, 0x000b,
        ],
        0x1000,
        2,
        0x0632356b1f093bce,
    ),
    (
        &[
            0x0009, 0x0009, 0x4f22, 0x2f86, 0xe105, 0xd400, 0x7f04, 0x000b, 0xfcec, 0x2fe6,
            0x0009, 0xbffe, 0x8ffe, 0x2f17, 0xbffe, 0xb000, 0x6013, 0x4139, 0x8fff, 0x8b02,
            0x6103, 0x4f22, 0x000b, 0xaffe, 0x2f86, 0xd803, 0x0009, 0x2f17, 0x2fe6, 0xd301,
            0x2f86, 0x9007, 0x2fe6, 0xdd02, 0x8f00, 0xaffc, 0x2f96, 0x8b02, 0x2f86, 0x7f04,
        ],
        0x0,
        2,
        0xda4e9e7d9656385a,
    ),
    (
        &[
            0x0009, 0x0009, 0x6103, 0xaff5, 0xa002, 0x2fe6, 0x2fe6, 0x2f17, 0x89ff, 0x6103,
            0x000b, 0xd905, 0xc182, 0x0009, 0x2f17, 0x000b, 0x0009, 0x2f17, 0x4f22, 0x000b,
            0x7f04, 0xd101, 0x2fe6, 0x9606, 0x000b, 0xd901, 0xaffe, 0x000b, 0x0009, 0x877a,
            0xaffc, 0xb000, 0x4f22, 0x7f04, 0x0009, 0xe105, 0x000b, 0x9506, 0x9b00, 0xdf05,
        ],
        0x0,
        2,
        0xa359b8abf6c0bf34,
    ),
    (
        &[
            0x0009, 0x0009, 0x6da9, 0x9104, 0x2fe6, 0x6013, 0x6103, 0x2f17, 0x6013, 0xa002,
            0x4f22, 0x2f86, 0xa001, 0x6013, 0x4f26, 0xdb37, 0x0009, 0x2f96, 0x7f04, 0x000b,
            0x2fe6, 0x4f22, 0x6103, 0x6013, 0xc21f, 0x000b, 0x2f86, 0x8bff, 0x8d00, 0x0009,
            0x9300, 0x000b,
        ],
        0x0,
        3,
        0xe5edc86f3ac7e7c5,
    ),
    (
        &[
            0x0009, 0x0009, 0xe105, 0xe423, 0x2f86, 0x6103, 0xe105, 0x2f17, 0xaffc, 0x0009,
            0x0009, 0x6103, 0xdc05, 0x8437, 0x000b, 0xaffc, 0x2f96, 0xde01, 0x7f04, 0x4f26,
            0x000b, 0xb000, 0xafff, 0x2f96, 0x2f17, 0xd405, 0x6013, 0x2f17, 0x0009, 0x0009,
            0xe105, 0xbffe, 0x000b, 0x0009, 0xe105, 0x000b, 0x000b, 0xe105, 0x2f96, 0x6103,
        ],
        0x1000,
        3,
        0x6b7970f55a998f2c,
    ),
    (
        &[
            0x0009, 0x0009, 0x6103, 0xe105, 0xe105, 0x2f96, 0x2f86, 0x000b, 0xde05, 0x0009,
            0xc6c6, 0x2f17, 0x2f17, 0x9005, 0xe105, 0x9201, 0x9501, 0xe105, 0x9104, 0x6103,
            0x0009, 0x8fff, 0x2fe6, 0x9c00, 0xe105, 0x000b, 0x7f04, 0x54aa, 0x2f86, 0xafff,
            0x0009, 0x0009,
        ],
        0x0,
        2,
        0xb5286204a916f652,
    ),
    (
        &[
            0x0009, 0x0009, 0x0009, 0x2fe6, 0xd24f, 0x9e05, 0x4f22, 0x6103, 0x2f86, 0xb002,
            0x6103, 0x6103, 0xb000, 0x9a04, 0x8dfe, 0x4f22, 0x9100, 0xa000, 0x9301, 0x2f86,
            0x6103, 0x000b, 0x0009, 0x000b, 0x9506, 0x2fe6, 0x2f17, 0x4f26, 0x9906, 0x9f07,
            0x89fe, 0x000b,
        ],
        0x6004000,
        2,
        0xfd013660f0086041,
    ),
    (
        &[
            0x0009, 0x0009, 0x0009, 0x7f04, 0x2f96, 0xa000, 0x4f26, 0x9107, 0x0009, 0x0c2a,
            0x000b, 0xbffe, 0x2f96, 0x51da, 0x9c07, 0x6103, 0x000b, 0x2f86, 0xafff, 0x6013,
            0x2fe6, 0x6013, 0x000b, 0xd001, 0x0009, 0x2ebe, 0x6013, 0x6103, 0x2f17, 0xe105,
            0x9005, 0x6103,
        ],
        0x1000,
        3,
        0x4bced50a248a2931,
    ),
    (
        &[
            0x0009, 0x0009, 0xf9a7, 0x6013, 0x8900, 0x4f22, 0xb002, 0x4f22, 0xb002, 0xaffc,
            0xe105, 0x2f96, 0xe105, 0xafff, 0x0009, 0x000b, 0x0009, 0xd801, 0x4f26, 0xbffe,
            0x0009, 0x2f86, 0xd200, 0x0009, 0xc17d, 0x6013, 0x9002, 0x000b, 0x0009, 0x7f04,
            0xe105, 0x4f22, 0x2f96, 0x8d01, 0xd403, 0x2f96, 0x6013, 0x8f00, 0x8ffc, 0x4f22,
        ],
        0x0,
        2,
        0x411779238ddd62bf,
    ),
    (
        &[
            0x0009, 0x0009, 0x000b, 0x9d03, 0x2fe6, 0x2f96, 0x0009, 0x6013, 0x2fe6, 0xaffe,
            0x2fe6, 0x2f86, 0xafff, 0xa001, 0xd500, 0x4f26, 0x6013, 0xaffe, 0x2fe6, 0x8fff,
            0x4f26, 0xafff, 0x0009, 0x000b, 0x4f22, 0x2fe6, 0xd1d5, 0x000b, 0x6013, 0x9500,
            0x4f26, 0x4f26, 0x000b, 0xa003, 0x2f96, 0x000b, 0x6013, 0x1d12, 0x9f00, 0x2fe6,
        ],
        0x6004000,
        3,
        0x4ee92c3203371c32,
    ),
    (
        &[
            0x0009, 0x0009, 0x0009, 0xe105, 0x9602, 0x7f04, 0x2fe6, 0x2f17, 0x000b, 0x6781,
            0x0009, 0xd002, 0x0009, 0x2fe6, 0x2f86, 0x0009, 0xd605, 0x000b, 0xda04, 0x2fe6,
            0x0009, 0x4f22, 0x4f26, 0x834f, 0xdd00, 0x7f04, 0x642d, 0x000b, 0x2f96, 0xbffe,
            0x6013, 0x8902,
        ],
        0x0,
        3,
        0x30f24b4dd1b70157,
    ),
    (
        &[
            0x0009, 0x0009, 0x9d06, 0xd905, 0x89ff, 0xb5f5, 0x2fe6, 0x0009, 0x9803, 0xe105,
            0x000b, 0x9d04, 0x4f26, 0xf3a6, 0x2fe6, 0xdd05, 0xaffc, 0x9fd5, 0x6013, 0x000b,
            0x1ead, 0xda05, 0x6103, 0x2f96,
        ],
        0x6004000,
        2,
        0xd6624ad3200e2266,
    ),
    (
        &[
            0x0009, 0x0009, 0xa001, 0xaffe, 0xd105, 0xa002, 0x9f07, 0x6013, 0x2fe6, 0x7f04,
            0xb000, 0xd817, 0x6103, 0xa75d, 0xe921, 0x4f22, 0xaffe, 0x2f86, 0x2f96, 0x8d00,
            0xe105, 0x000b, 0x8bfc, 0x2fe6, 0xafff, 0xa001, 0x2fe6, 0x2fe6, 0x6013, 0x2f17,
            0x0009, 0xa001, 0x6103, 0x6103, 0x9b00, 0x000b, 0x485b, 0x7f04, 0x7f04, 0x6103,
        ],
        0x0,
        2,
        0x7e935121b798aa61,
    ),
    (
        &[
            0x0009, 0x0009, 0x4f22, 0x9703, 0xb07d, 0xa003, 0x2fe6, 0x0009, 0x2f96, 0x2f86,
            0x9a03, 0xd402, 0x8ffe, 0x000b, 0x000b, 0xa000, 0x0009, 0x2fe6, 0x000b, 0x9207,
            0x8b00, 0xaffe, 0xb02c, 0x2f86, 0x4f22, 0xa003, 0x9406, 0xd404, 0xaffe, 0x6013,
            0x9404, 0x3a4f,
        ],
        0x1000,
        2,
        0x6c6b7906fea70cfb,
    ),
    (
        &[
            0x0009, 0x0009, 0x2fe6, 0x4f26, 0x9602, 0x4f26, 0x0009, 0x4f22, 0x2f86, 0x7f04,
            0x0009, 0x000b, 0xd402, 0x2fe6, 0xe19e, 0x6013, 0x2fe6, 0xd003, 0x2f96, 0x4f26,
            0x8d02, 0xe105, 0x9904, 0x2f86, 0xa000, 0x9507, 0x9905, 0xd504, 0x0009, 0x58fe,
            0xdb01, 0x000b,
        ],
        0x6004000,
        2,
        0xfc7a5287125006f6,
    ),
    (
        &[
            0x0009, 0x0009, 0x4f22, 0x2fe6, 0xda02, 0xb002, 0xaffc, 0x89ff, 0x000b, 0xb000,
            0x2fe6, 0xa002, 0xaffc, 0x0009, 0x000b, 0x9301, 0x2f86, 0xb000, 0xd902, 0xa002,
            0x2f86, 0xdd00, 0x8b01, 0x2f17, 0xa003, 0xe105, 0xd405, 0x7f04, 0xde04, 0xaffe,
            0x3f97, 0x9d01, 0x0009, 0xe105, 0xb000, 0xafff, 0xe105, 0xd302, 0x6103, 0x2f17,
        ],
        0x1000,
        2,
        0x88a533d3b44a52fb,
    ),
    (
        &[
            0x0009, 0x0009, 0xdf04, 0x7f04, 0x6103, 0x8d02, 0x0009, 0x000b, 0xa000, 0xc422,
            0x8b02, 0xdd03, 0x0009, 0x0009, 0x2f86, 0x000b, 0x0009, 0xb955, 0x000b, 0x9d06,
            0x2f96, 0x4f7f, 0x8901, 0x2803, 0x9504, 0x0009, 0x000b, 0x6013, 0xd804, 0x000b,
            0x6103, 0x000b,
        ],
        0x6004000,
        2,
        0x3ebe48090edc9109,
    ),
];

fn fnv(data: &[u8], mut hash: u64) -> u64 {
    for byte in data {
        hash ^= *byte as u64;
        hash = hash.wrapping_mul(0x0000_0100_0000_01b3);
    }
    hash
}

#[test]
fn listings_of_recorded_regions_keep_their_digest() {
    for (n, (words, base, count, digest)) in REGIONS.iter().enumerate() {
        let mut code = Vec::new();
        for w in words.iter() {
            code.push((w >> 8) as u8);
            code.push((w & 0xff) as u8);
        }
        let funcs = handle_code_section(&code, 0, code.len() as u64, *base);
        assert_eq!(funcs.len(), *count, "region {}", n);
        let mut hash: u64 = 0xcbf2_9ce4_8422_2325;
        for (_, f) in funcs.iter() {
            let head = format!("{:08X} {:08X} {}\n", f.addr, f.end, f.name);
            hash = fnv(head.as_bytes(), hash);
            hash = fnv(f.text.as_bytes(), hash);
        }
        assert_eq!(hash, *digest, "region {}", n);
    }
}
