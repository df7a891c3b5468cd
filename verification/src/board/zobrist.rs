//! Zobrist hashing: the incrementally updated position and its hash keys.
//!
//! The keys are fixed pseudo-random numbers, drawn once from a PCG generator with a
//! hard-coded seed so that every run hashes positions the same way.
use vstd::prelude::*;
use crate::bitboard::{BitBoard, bit, BOARD_MASK, lemma_board_ext};
use crate::color::{Color, lemma_color_idx};
use crate::piece::{Piece, lemma_piece_idx, unpromoted};
use crate::square::{Square, lemma_square_idx};

verus! {

broadcast use crate::bits::group_bit_lemmas;

/// Square keys of a white pawn.
pub const SQ_WHITE_PAWN: [u64; 82] = [
    0x1ABE3CFBD438F689, 0xFEAA4F36D5D8A784, 0xED18A178677E6B3D, 0x3DD4361AFB83B148,
    0xA5A078A2606D417A, 0xF84BBC3FB912C5F8, 0x9D8EC75B0432FA94, 0x3BABF0A4B3289BF0,
    0xB6AE21709410C6FC, 0x22E51B7F4A253642, 0xA81761E71EF62126, 0x403AE0DF18CF336F,
    0x1A6027B9E81EF8E5, 0xA3FA58CE1173CB45, 0x7E5B013430B429BF, 0x10698F370446F04B,
    0x7BBA1163B64ED6EE, 0x3BBC03579D2E8EEE, 0x9852EB1CCC1047B6, 0xFC510EE37E711053,
    0xEB0B369F513D2376, 0x2546E4005F0E6645, 0x6774FE7E92A2BB14, 0xE474D560B33B83CC,
    0x33828B828AD1AE9D, 0xA9492E8FAE0D093A, 0x68076A6F32A039E9, 0xB0D062488C45828D,
    0x97CB3A66A4FE58E3, 0xB311BE9AA2553799, 0x4996F235CAEFD327, 0x030BFE688D049C9E,
    0x7F48710B71995753, 0x8DE0E8B80A578A42, 0x76CBFDA666216778, 0xD914EFBBFE1438FE,
    0xAB8236304D022719, 0x1D038B8E1FD91730, 0xCA043BB7939DDAFF, 0x62DC14174016B3EA,
    0xBAECBF8CF69F29D9, 0xA213077F29B28146, 0x108A066C6247FDB6, 0x1C6825C3A79DE779,
    0xA3E2A72BE851BDD8, 0x8D04DA920FC1C2A0, 0x5A293E537883EBC8, 0xF0A85E8AE2DBD1DF,
    0x63BA4DAC923F7702, 0x5B9F014BA8DACE61, 0x3F47DDB8E409A4C0, 0xFA5190D9921611B7,
    0x87413FCE50E42E12, 0x75A606942393359E, 0xB1BD90BE3119B95F, 0x21A7C8E418FF5231,
    0x601608E79AC39557, 0x6934BAC8A6BF22B4, 0xAC7CA817ABEF17E3, 0x3FA0DF58223E1857,
    0x76770A1DD32B33A1, 0x192391B3D22F42B0, 0x6A32AD7CFF755F97, 0x02E37152BCA91D70,
    0xBCD6D248705AA3E8, 0x5996AA5FFC9130A7, 0x518C554AA0EBFD4B, 0x3DA5925A020E96B7,
    0xF53EE7B916CC0E28, 0xEBA7B1A8807F0F9F, 0x12D343BFC4BF5CD1, 0xEBD83AC404306D98,
    0x56A426CCF1DC0317, 0xC10B16018074DF6A, 0x8EF1DA2416A27510, 0xBBCF380CB93CC08C,
    0x0B26C408468C3D59, 0x808B726C5F088A24, 0xD27DC6A8BA721E03, 0xED76D96B85D985F0,
    0x19ADEFB3B8B7C5AB, 0xE8D8A1AD77EF2C61,
];

/// Square keys of a white lance.
pub const SQ_WHITE_LANCE: [u64; 82] = [
    0x9CE6971694B3DF90, 0x6AE837290C844B0D, 0xB640D851E0A696AB, 0x72DEF10B518509F0,
    0x4360BE60F04412D0, 0x88A94C7AE3A74556, 0x880320A4BC4178AF, 0x6967293863D303CD,
    0xDC7E5FDEF02AFC3E, 0xF2F16D88BB06EBFF, 0x6E4795382573AD51, 0x0D7E9BB89A373E3B,
    0xC7117CC8780A9D16, 0x4DA45687FCD90892, 0xC9B4B27C40E949E2, 0x1EBCA55B6F17B7AF,
    0x24B56BFA8E5E66E9, 0x92BE21BB64C29049, 0x4FDC91F6C36A89E9, 0x3F150103F833C95A,
    0x53FF7461D7F99DF2, 0x5E230503609BF061, 0xA63BCDDD96E6702F, 0x33651D9DD5741CCA,
    0x94DC7E2059527A11, 0xDF3AE67233A810E9, 0x4304BA6613429DF8, 0xD9B3BFA96B961DBE,
    0x9F916F47523EA53F, 0xB94891EADF16C92E, 0x1CB365E6E048D5CE, 0x3DA59133E57C463D,
    0x40C9EE6780BFEF92, 0xEC9D823A0382BE9C, 0x5D3E7A28205CE348, 0x6A2AA14F418A5CA4,
    0xC49E62FA34DFB490, 0x6348FEB35AFEECA0, 0x8C88EA0BF9CE40BA, 0x0F7AC3D59F8BD212,
    0x4F753AF632D47864, 0x5267702744BD3986, 0x7CC46D73BB13B93C, 0xD93107F9DACEE6CF,
    0x2D1B1CB87394710A, 0x979F54BCAD279C25, 0x744A3391114775E8, 0x9CDF341B6D11983E,
    0xEA435014D6A07A84, 0x6E7E471192CC34FE, 0x688CB0C59519CB41, 0x76A0C8DAF92F6FF2,
    0x8DF26A937AD6E23B, 0x7C74A3EC55188F82, 0x99685BC787828148, 0x39E701FFEA250A79,
    0xEE9D412174A0A2BE, 0x60568AEA80A37C70, 0x0005B2B55D3ACAC1, 0xE1651E32866E9C63,
    0x73B92E384B3C7F68, 0x109DD750F48E7EFE, 0x493C65DB9F06E4F7, 0xEBC8CB6E04B822D4,
    0x07EAC524117E9DFD, 0x324EF94EA9E33DA5, 0xB19A7596D977E69C, 0x968CABF60F43D901,
    0xFD833220786D5357, 0x3CD695A964C29534, 0x30EC99A157855AB8, 0x3F4632F33C6B062C,
    0xAD787E81946FD19B, 0xE2DFB3154531FD69, 0x574C1A97D3EE526F, 0x8B11B6C73739654C,
    0x44B9A986E6936710, 0x260839842FA51E0E, 0xFB303BB9B065A51E, 0x72770167E90E984F,
    0xA6FD77F6A73BB834, 0x6B6EFC1632B9E94C,
];

/// Square keys of a white knight.
pub const SQ_WHITE_KNIGHT: [u64; 82] = [
    0xD03A68FD2A79FB8A, 0xF9025A8A5DE41869, 0x5B6FD0469B8B851B, 0xC42CC3571E30ECEF,
    0x73C8C9E62CD11321, 0x430B44CB88A9FB54, 0x1DDA7F425615EBDF, 0xEEC22A22291DA166,
    0xB60B7494CA534634, 0x8676A6BB64BEE65D, 0x3FC9DFCC51285531, 0x97D14B051D302DD6,
    0xA8AFA9205DB69DFC, 0xD9B2E008EB6A835F, 0xF5154959D0861315, 0x49811C8CD8A52552,
    0x918045D9D332FF73, 0xC21F2257628FED44, 0x45D2C524536AACFA, 0xFA14E4A2F3FA8B17,
    0x38AC73CE3E746531, 0x2B8CE34B0E0FA0B0, 0xBA78C8D96AF8D7D5, 0xE220C07428159F3D,
    0xE698EB0CA31B2359, 0xEE852DF4FA474712, 0x2A790DE607422962, 0x9E17C9B42D1D8A00,
    0x8B460EEC2AA99898, 0x08AF254833E11A94, 0x71542207C8B63DAA, 0x5DAC7F9960F1B2C7,
    0x5657516E9DBCAB0A, 0x6F28744FFAD620EE, 0x8F3FA60EF87DFDE0, 0xCB26333DC779EE6F,
    0x086F5D46EA67F86D, 0x300D925167177F7A, 0x2441AD9253D18965, 0xE39BEDCFFBF97B75,
    0xE13BB367DFCB3421, 0x820138D2E24F7D56, 0xD30B06CFC8C3CDA7, 0x2EC8995421B25F93,
    0x65690A6E1D64CAFF, 0xB5396C1FEBC1286A, 0xC6D79E1F5AAFB085, 0x94F96646BE394E11,
    0x8F65CAA4E2BA896B, 0xD1CA53B28CA7E6DD, 0x8878B5625BB8E581, 0x326F83720E7F71E5,
    0x16570EB2850F9255, 0x363D98E232E04AFD, 0x08C5C2F798A416A6, 0x080CF8AC3535C609,
    0x298EB9ABD38016F2, 0xEF13EF53F4F0B480, 0xD8A3DAAFF000FDA0, 0x70EE9ABF6D2B9553,
    0xE1F96F9717332A17, 0xBC6C2A30C170BBDA, 0x1ED7130651FBB37F, 0xD4D8E84D89B5F617,
    0x4B106D69ED374566, 0x3C92FA713F89C689, 0x45B305D2C65A4B2C, 0x6D7D11A9C3D66AF5,
    0xA469B76591B43C9F, 0x1A4092B4C0DA577F, 0x4C297C85C3A2C3B6, 0x0152DB642A8EE470,
    0xD205D31C54572A35, 0x6A71143169AD39A3, 0xBCC75F7B07039992, 0x26859E0B95F2A716,
    0xA73B9AEB554FEB5D, 0x7B4691D4DD59119A, 0xACA4E3408D525FBE, 0x9E28981F6080D027,
    0x996F462AD06E1984, 0x075814E8697DCDED,
];

/// Square keys of a white silver.
pub const SQ_WHITE_SILVER: [u64; 82] = [
    0xA6BA88D3271F1057, 0xEA7A062B53B557D2, 0xA291BBA104E472DE, 0x6C3F160AAA8B4DC9,
    0x8143F92C3F534202, 0xD3D626ABD6D1C5DA, 0xE8F9DD418A57DD77, 0x47EF32F1A2E94863,
    0x505F66562E330F48, 0xCB8E7B64E7668623, 0x46C8F7C084B502D2, 0x2A62295055DA5EFB,
    0x1B1048C3405A307E, 0xD2F1BB02C600ACB7, 0x6F7DA183768D053D, 0x8D1DE8D2EBD52130,
    0x2B2A0399D229860C, 0x0D8BA8727C494EAF, 0x0AE3CE62D6737737, 0x662A32561651C092,
    0x4655C4C3939C2356, 0x183AD1FAC44BC68E, 0xB4E1C889520DA594, 0x47BC7F9BFD604D12,
    0x6823B430ADB1EDEB, 0xD5DAD9196EBE23DB, 0x46A4CBAF1D85EE4B, 0xA504DBD988B07544,
    0xF93F20CC176611B7, 0x0F2D367520F05F7F, 0x6AACE634B415FDA8, 0xEB7764095BDDC483,
    0x182BB685A831095B, 0xB31DA24CF6970620, 0x2AB7C0699FA9A806, 0x62667336BBCFE09B,
    0x282F08CCBE7090D8, 0xD2B7F6494B5B8453, 0xBB365619CD83A73B, 0xC3390BF7CF00275C,
    0x5278B3202A385536, 0x3B6AD82117376D23, 0xA41767C6CB8DFB6E, 0x00E0751EFF76111B,
    0x5126676EF65047D5, 0x0D1696C1E095AF97, 0x2AB2D3A4BD7E43DF, 0xFE7E10F273AB5905,
    0x7330D4EEE47B72F6, 0x448F1815F0731889, 0xCA6BBA903EB36248, 0xD741A4AD901F69FE,
    0xF8D6F38F5F1EBD5C, 0xA42658356727731B, 0x88291A5CC69A0137, 0xF31B5F7DA3B869F2,
    0x6D9B663D8BCE540C, 0x2AF44BA134A7A609, 0x67A895BD42E970F8, 0x7C06FEA42EF977CD,
    0xB72276125901EDF6, 0x271FE23DB6215CEE, 0x3D7286390FF91A26, 0x8DB4A0EDE29E4D49,
    0x3D040E640A5A2253, 0xB83661E348FA308A, 0xB4B95B5A02E822A7, 0x64CA9167D64122DB,
    0x5559075F5A115116, 0x1D76D5CC2995E221, 0x50039B77A3442900, 0x703AF61CC07F1A62,
    0x20458F54F3CC047C, 0x7753AC0CAE8E44B8, 0xD553529FA593B030, 0xA8DCD5BCDABDD43D,
    0xD855BFDE2B772AED, 0x14FF564DFB20D593, 0x52551427C3D1547F, 0x27E16A24781FB464,
    0x331ED9CB5DF1D6F6, 0x837E23A6C044BD8A,
];

/// Square keys of a white bishop.
pub const SQ_WHITE_BISHOP: [u64; 82] = [
    0xC1C8C5EABE420E3C, 0x4209FCC79A680383, 0x3B83FF9097960FE0, 0x57F85E7640A34CA7,
    0x5CBE2D66B3D76C27, 0x6C758A3AF2C72989, 0xBA16C8B5A6F3ABDA, 0x58F3F314F1A8D032,
    0x5231E238B6C96454, 0x4D62D922DE423BD6, 0xBAE147359864B088, 0x5A905326D9164048,
    0xBD6F96002B010345, 0xC17C74A14282A8EE, 0x882BF542776976D9, 0xB6328680C27025D2,
    0xF20E1247C4BF8D0E, 0x9B5DF22EB6F7183C, 0x74FB900798700EFA, 0x21FC561B507BD0CF,
    0xBB1FD2BF817FD919, 0x77E9111DCD205BAF, 0x73CE0D560A2DD306, 0x62ACFC15A847F72C,
    0xC5E7D640D7230EF2, 0xFBEAFE5243BC201C, 0x7F1DF4845AC72828, 0x2135488D7CF7AE8D,
    0x2786A52D2C89023F, 0xAFB259D3035F8475, 0x4B50A4C9B4960FB4, 0x5B1D66644B185E77,
    0x8EB2E6AF27D9DA1A, 0xD4EADA084325317D, 0xA4A0250565590C88, 0xF0DCEFE7C2AC548F,
    0x1DA582CDEEC3EB30, 0x9AB30F2280BF367F, 0x3445D0C5C1601AFC, 0x6A8D10EE574D2680,
    0xEBB36B7970D7C842, 0x2BA9F791EE92E62B, 0x3BE63D80D28F2426, 0xFAAA9AED90265938,
    0x786D509736466C08, 0x61C63FE1991FBB39, 0x6C5A99D44CD97C45, 0x49203820B3843D72,
    0x4162FA8E3E4C9B06, 0x9C7B9B1AAA01C5FE, 0x492F12CC5625AA40, 0x8255925094B07057,
    0x1711188C0A1B2D81, 0xCDB03D99786BB6CF, 0x5E2E292C58F48818, 0xD16922C33B192EBA,
    0x50146D66F3EE7D55, 0x3687CB17D3DEB3DF, 0x449B9FF833BB7C56, 0x04CA9D737417DD03,
    0x2A866D5EACED64DF, 0xCCE8047DF7BAB006, 0xB9349816F2871F21, 0x43BD5325217B0647,
    0xD5D9B9EED6B1EE94, 0x9AF035B228A45B28, 0x4A07320401764586, 0x0E0001F1CC62B31D,
    0x8D34878E88E4AC2D, 0x89F9ECB1381A20CD, 0xFC91E0413A87D11A, 0x1F58B2D1CAD3D983,
    0x97A8B46CBA9DC02A, 0x8B2BF61BABAE8D7A, 0x7949015B01F1A666, 0x4FE313F609C79D59,
    0x8392F5038D7AC2FB, 0xFB83FEA26C562E5A, 0x7B8082305F18C77C, 0x5EBACC3B5367F9C4,
    0xA7049D79629AC5E9, 0x444DB8D9C5426C13,
];

/// Square keys of a white rook.
pub const SQ_WHITE_ROOK: [u64; 82] = [
    0x12ACAEFE0B7FD4B9, 0x45F4A3E150BB2E44, 0x4451E8F4C45C5FBC, 0x76BA0B7991FD24DC,
    0x95D7AA3E1BE78E73, 0x30DB8810898D8393, 0x35BF68F61721F25D, 0x56CA3944E3D01C01,
    0x9DFC556802A80227, 0x24DDAB5827D40062, 0xB01D95217FA383FF, 0xD486AB746479DAB8,
    0x5DA7737AAFFD4001, 0xE986FA7AAE3FD953, 0x982E452739F879D1, 0xF779FCA38D4DE063,
    0x11EC8BFFBA84A6AA, 0xEBA0F7788A327DA3, 0x4A33645D2B240467, 0xA65C9A7EFA5119DC,
    0x8DC6062788BAF375, 0x013C9107166128AD, 0xA0F7A9888E6500D1, 0x27A8192D46A5D3F4,
    0x0B2B447BD2DA8B1D, 0x4DD09DAFA7E172AB, 0x72C02AB28AD48B9E, 0x907581FD9016B0FD,
    0x87F7F76A66B3EDD1, 0x727CED19236B371B, 0xF4C58AD0CB4A7675, 0x2B1DE4685992D7EB,
    0xCF98960C2C28056C, 0xD5219EB9A1CA0F13, 0x0C6AC3A63661721D, 0xE742D0EAF9B7CB59,
    0x20AD8E5D9B5622E5, 0x0BB47FF23A5D429D, 0x49164F1ADE90F7BA, 0x91C4CC56CF1388D3,
    0x026B0EEDD94A7292, 0xB1D30C1927AD5BFB, 0x10192BE94FE1CB76, 0x45058BDB1D2B9F66,
    0x9FCEBE90456DDF69, 0x6FFA7AE000011282, 0x091963983EFEE47E, 0x562D8AA85987CF93,
    0x8E8CA6013ED2C72B, 0x30975D384E9B3AF0, 0x4096087E8E152B26, 0xD68B6EDCE9857AA3,
    0x549A10F6CE8F1F8C, 0x1EBE4B892E482343, 0xFEA5F2B808694889, 0x673E0A44B19A0397,
    0x00B644BF7BAB57B6, 0xB1868AB3A1B539CB, 0x738223D385894F16, 0x63EE036B71C0360C,
    0x585A7FFF46F32BA4, 0xF96FA12C8D4167BE, 0xEF703FD8B960B0A4, 0x4546B036990539EC,
    0xFD556D282C889FF3, 0x3035992AF1F64627, 0x8744D927CEFA4232, 0x5F9CB58C2D034D28,
    0xE8E6A6D1C31FA6D3, 0x150D6574504F6150, 0xE2C928682E22A97D, 0xD963BAB5136B1EFF,
    0xAE0E4BC06B265ADD, 0x71FC4087DFDB60B2, 0xB88F880A502D30ED, 0x3FF7A30CA0476CD9,
    0xF78C4C0C15B299C1, 0x06E3CFACC6FA2ABB, 0xB04EC5CBFE3B6A52, 0xE9A55B8E15759B0E,
    0xE9FC31A2BDB023E2, 0x5EC7C05780F77FE5,
];

/// Square keys of a white gold.
pub const SQ_WHITE_GOLD: [u64; 82] = [
    0xFC4205AF3532E1A7, 0xD3A3689A39A3D623, 0xC1336C623B86E45D, 0xBAF989A7C44203E6,
    0x4C1C31A608FE021A, 0x55ADEED23BBD23CF, 0x1A96D9AFAFC04498, 0x8E8673AA29E500DE,
    0xA663A16C60428046, 0xA5519B0AAFB66904, 0x15DBCE832DEA8BBE, 0x098F213FD769A281,
    0xD6A4B8D01C20BBED, 0x400E54650141BCB3, 0xD8519D02AF5C9051, 0xEB72F3D25F99D27D,
    0x132BC520EBF29DA7, 0x3D1058BC0F8C5A21, 0xAED8210FFE65A0F2, 0xEC15CBAB8DE7EF7E,
    0xF8DF92860557789F, 0xDEF65F69FC4DC3A1, 0xBF65506E36A73DC6, 0xE6341DD0382F8FAB,
    0x73F100CE992BA107, 0x57B07C25F2238114, 0x25B3E3D50A9C9E7C, 0x0982F996B616E5B0,
    0xA5E3676BAC6AA816, 0xFEB44D1E694628B3, 0x8CB7100C16C88E0F, 0x8C009B4E878C33CE,
    0x646F61BD575A83E6, 0x0E69E03F94B5C69F, 0xDDFC3B4631B7FBFF, 0x2A4956DBE871638F,
    0xB411CFE62CC79BAF, 0x3B2129712F6F1C31, 0x3CAE4516C9E76802, 0xBADECD2722AD865E,
    0x1B77696B7B1FB78C, 0x3F17449A33776591, 0x2DBDE1DF6FDB89EC, 0x2D89F237C9047A9C,
    0xBEDE21AAEA6DB59C, 0x196EB3370F28BC12, 0xF7865208158081EF, 0x16F8DF2526AF1F75,
    0xB823114747610677, 0x2BBA1DC264FDA0CC, 0xBB758F2AE46BFF9C, 0x2371D83E1218EF39,
    0xEFB270948A42FE39, 0xCC5ED3EE91C4042E, 0x3C6DFF7D98995F4C, 0xAC8FDB5122DA7463,
    0x4DE78041C348DDB5, 0x3BAC3E3F111FBA94, 0xBE71601085CC11AE, 0x5E2B2CA6BF90C398,
    0x735A34F08A5B0BE0, 0x6262AA719CFDDB01, 0x10B42A8B0AC1005E, 0x0255E08C87F75D86,
    0x7C60618B9CC3A00E, 0x20863BE59256030E, 0x3B377EB3DA97598E, 0xDEA07C073664132C,
    0xC5DEDAB156EC97BB, 0x6C91B1770FBF95C0, 0xE49DCDFF40FC271E, 0x4E53A77A013306A0,
    0xCDD8F80F7D61B589, 0x2E523FB03CF34519, 0x899515C8C1D65BB3, 0xE47022CB8ED3D3A1,
    0xA299078E43385746, 0x6E38D29446699DEE, 0xD9D55A0CC5C211AA, 0xD8DFE4F8076AF257,
    0x027F2F39B0712491, 0xBAA4BFFAD2060062,
];

/// Square keys of a white king.
pub const SQ_WHITE_KING: [u64; 82] = [
    0x6F6361D39E64EFAA, 0x78CBADFBBF41C112, 0x2C11C07CB11D82C1, 0x37D79338F28DAB50,
    0xD368A99A18376DA2, 0xC83200843D995671, 0x7D824A855CDDE7B3, 0x9F45D24422C1633A,
    0x4D4DBDD4A175D86F, 0xBA635E987C0B97B9, 0x38E32B876063F308, 0xBB20E71EC4BD1E51,
    0x5C479FF9F212D604, 0x43A5BF4CD8EDF256, 0x7904D78A8EA9DB92, 0xE50466238D96A022,
    0x779B3274C4983310, 0xEBB4A23742237C44, 0x3393673D93AF77D7, 0x0ED809CEB5DBBAF7,
    0xC53C2BB036B2DC92, 0xF5B0234DB8383159, 0x2FD5CC220C784FF9, 0xB057A8F1E5A1BEAC,
    0x7D28FEDB49FBF93B, 0x2E21BEFC5A232F63, 0xD199AD9B615BCB6B, 0x5CD3883FBA03F175,
    0xB28C96F5760188ED, 0x3E0E7577231F9792, 0xFA0AFE06AEEF1AC3, 0x493982175D017D3A,
    0xEBDE5D6368F9D8EC, 0x0F0A840EE5C59DF5, 0x03284551900C94EC, 0xDD7635FD591DAE68,
    0x13C56B322909F436, 0x20945CF0F34B3EF2, 0x9DADD00DCEAAA374, 0x09677244BEDF87B1,
    0xD21ED9177602C3CA, 0x3A92B602E53BB3D4, 0xF89AC1418645D550, 0xF8019F6A2708983D,
    0xF2B300F67F5ADA49, 0x7632F270649ED135, 0x958F3A0BC8CE046F, 0x5A8CF9213665464A,
    0x2D24B7C0C0802BE2, 0xE93C36CDD1AD238E, 0x10A30D03EFB2E549, 0xB6B68C95346A9B73,
    0x1DD7D82937DD7B57, 0x10CA1B110C87E3E5, 0x1FF595D692CA6E2A, 0x41420763F105F5E2,
    0x5CFF468573838A3A, 0x8F6453C7485E71D4, 0xFCDC51B5DAF409E8, 0x4EAB90BF0C3534C7,
    0x63C4C19FE18FD24A, 0x0923CCAC1D3C04BB, 0xC267CB4F6F3152E1, 0x755B75E0530701FB,
    0x90D0F02F8A2E11CC, 0xBB04A26BA84BAC1B, 0x4A161F1B8125B1E0, 0x64FA3487B60D1CD5,
    0x7023799C3C545202, 0x26244E92EA877E7E, 0xFECBDDBEA275A5B4, 0xEEC55363D6961056,
    0x4A5BF1213C0BE3BB, 0xF95228579219EC88, 0x14EC9455E9590DF9, 0x1B8CC39701160FA0,
    0xD6B36E90E47264DE, 0xCA57DF94D43EE8B5, 0xC35D379C7DAAABB6, 0xB750BBDDD180AFBB,
    0x7DA96255F0311D6C, 0x01FFBFECBE654AA6,
];

/// Square keys of a white tokin.
pub const SQ_WHITE_TOKIN: [u64; 82] = [
    0x3460948FD41B9EED, 0x7CB3047B5EAB50C7, 0xCAB5BDB681D333BC, 0xBC2964AC8110DC0E,
    0xA6EDE7CB0F2CBAE5, 0xF038431A5060F630, 0x89DBF79713CFD47C, 0x4267980A8CE5D26A,
    0x2117DB1C74F702D0, 0xE2943ADCB671082D, 0xF77981D11968C23B, 0xEF793181C055392B,
    0xB5D458A9135D05C3, 0x6E3D35C493A348C3, 0x1083374E316F034B, 0x3C9822C64724BAE7,
    0xEEE9EEB8CE5D9076, 0xAB3525AE0A1872A9, 0x3CA78967FDC8C50E, 0x9F8D748EE6281EEE,
    0x7A8DE6B541216242, 0xE21D78B22E5274A8, 0x584E0F324AB9DA15, 0x06F30A5D41DD1AE9,
    0xC5996A39FD7371F9, 0x5CC9FADD1204C1C8, 0x1156AB0DEE39DC50, 0x73FC0756E8C55DD2,
    0x9E438736C4A48BC6, 0x94C2C9A4AEFC7E6F, 0x6880D0AA15C260D1, 0x239123E601B7904E,
    0xCC29C0335FB15990, 0xD4EF5331BC235278, 0x97BBC1ECAAF79476, 0x035A48BA074F793E,
    0x16168FCBEBEDA9EC, 0x9E8C2DFAAE654DB8, 0xE02AF0CFDF5FC32B, 0xFE97AC438EE09E55,
    0xC2BB2AA01A68E297, 0x0994B6E31CC56021, 0x64E8FBC2C332D02A, 0x9621BB194A6EE9BA,
    0x4B8DF2404391E951, 0x5D3D677B9F56C311, 0xF3DFB594C871287D, 0x930AE2724F37A507,
    0x2184E77C58920A3F, 0xE3467FF41A46FDED, 0x10AB79B6EFA3BD43, 0x0EB56C783FB24E26,
    0xFBB1C6F42263C390, 0x09ADF8AA45326DFC, 0x1D647BCBA879991C, 0xE5A2E8BE88E3A6A9,
    0xAF5E27B3E1D9C05B, 0x18BD29C933AC83CA, 0x317B49597A9A4CE9, 0x0EAF8076C9CB6A35,
    0xA00FA1A93BE3D72B, 0xAA9AB7C1FD25CD6E, 0xF9D9B54D9E370E23, 0x937DF77ECC432C36,
    0xE4B695A58F2DFACF, 0x9FA9DBB191FBBB6F, 0x58501291AC37F191, 0x46D33B4F6B6512A9,
    0xA0B13C4FB8A2C038, 0x5D7C3B9E5BE0A639, 0x3A32218928C9EFF1, 0x7D902547C3EED9BD,
    0x46FCB3F44135DEE9, 0x26C73EC7CD0717AF, 0x03543E253F7AAF70, 0x0E51B11F415F27A5,
    0x04295912E1464817, 0x6E6DF4CEC8CFECBA, 0x977B59CCEE734BDB, 0xB77A30241C747A45,
    0x951EDA11280F4B44, 0xFA12D2F436546EFA,
];

/// Square keys of a white plance.
pub const SQ_WHITE_PLANCE: [u64; 82] = [
    0x701EF575CC61B458, 0xD42D946C26792703, 0x253780E69966C8B2, 0x3EA679A2709533B1,
    0x75E9F176AD0E7B4F, 0xAC463F0492D7B24B, 0x0E8BEF559D54F983, 0x0EA4FEBA8ADEBC87,
    0x7126AB5AA6C3C3BE, 0x84934130C07ECD60, 0xC61761F7200D2F05, 0x65EE6D668406E3B0,
    0x288B7DA1937E854F, 0x811911A961FC3F5B, 0x48D6BD6DDAE3B9E9, 0x0DBA1707029D521D,
    0xAC6B9EAFCBA8D993, 0x1D67BBE7037A6633, 0xB94E4439DEBA1032, 0xF389BE4B65CDAE53,
    0x4D4F2645C0893E79, 0xD6F8BA8F344CD9E9, 0x009A21BF6F2F346E, 0x31EF896E93F4AE0B,
    0xFF7A1FE2346A300E, 0x21A5422AB96CA379, 0x2110291E36240362, 0x5A83D6069DD605E0,
    0x72F819C1C074BB72, 0xF45C1E09D6875F7A, 0xEDD58D9161DE6A6E, 0x94F4546B3E99AA5C,
    0xEBFAB1A321E125F2, 0x5E1073F74814589C, 0xC642EB1643CC0DDE, 0xD6B38AD594B6B65C,
    0x284BA5116F4F274E, 0xD4808DC244AEF582, 0x988F542A50BCDD7F, 0xD6B34D96F34201A1,
    0xD9488C7D02E97B5F, 0x4C2F4DEF14265286, 0x2BD75FC202880ACC, 0xC70673239F7094C9,
    0x79D297D813962722, 0xF54322AF4663F1E5, 0x8A0418B57A7B361D, 0x9B26EE0110AE3A0F,
    0x0871C0FAD749FBA7, 0xD0A7571BFD98A92A, 0xC18ABD3794F7D28A, 0x8D3FE9BF705487B9,
    0xF1E8D1DF713BD016, 0x40B0C37C625EE216, 0x756CD3058E88B0AA, 0x6306153C329E0179,
    0x357C42AE8F3D67A0, 0x41536374FBCDB7C6, 0x4A9BCBCD1EB0D5E3, 0xF79E748AB9D87BB8,
    0x6279EBA6902D991A, 0xADE0AD4B78AE1381, 0xFAE6888E1968FFA6, 0xD79F6DEFBBCFDB73,
    0xF15BB1422DEA24CC, 0x6E726EF774B062F7, 0x0CBF5E3EB76B82D9, 0xFFC42B2751F4770B,
    0xA3B996AEDEE775F1, 0x1CB09733A9BB5A7D, 0x207615DE3A86B6E3, 0x063CFD50E4C90D1E,
    0x6815AE05CC1A7704, 0x71D53EBB9E1F3AD8, 0x5015A0AF017C9D12, 0x945AC6928B633623,
    0x5B610C40A486BEF7, 0x86E00AA9D93B3199, 0x84EF5E72C77CB6BB, 0xEEB6F8D342D50089,
    0xBC737DB40E30C355, 0x936FC4A7496D3652,
];

/// Square keys of a white pknight.
pub const SQ_WHITE_PKNIGHT: [u64; 82] = [
    0x7C0A8CDF34F3A495, 0x4D7B109840F10642, 0xDD6588483D191A70, 0x57CEC3957369DF90,
    0x62B70DFE9DCD70F4, 0x4402E8F74C7FC2E2, 0x40EF26BE84097611, 0x4AABA3887A61F621,
    0x7DC3D479FCC51401, 0x60BD52F0D1B492FD, 0x2F46650BA0A80A40, 0x4E7361D59CC89B03,
    0x3B721C342E4E60FC, 0x4AFED1E1A0808F19, 0x28CD013505008D80, 0xCD9A1C35F02BC94E,
    0x2F55556E8B9B1CA3, 0x811D04F693D86BA7, 0x1E181E2EE83D80D3, 0x03BEFDF76BC1F0C1,
    0xBDD1BF3690D6B07F, 0xBE187F494A71C271, 0x59444FFF60D4B60A, 0x4A4FC4B010D4EA0D,
    0x37FDA5AF212F4615, 0x71E85AB1D0FDCD7B, 0x44707C16A25E860C, 0x8CAA3C32BD2A0455,
    0x2D107474BFE88388, 0x8E6FC2E1D0E6CE1A, 0x7644288B967C6E00, 0x58594A796B6C64D3,
    0x1F67231A2A6C1E79, 0x359E7873EE6ABA84, 0xB7D4E4F13B54C326, 0x8D6BB1E454A53C8B,
    0xF7BE053619531422, 0x472AD4B24B4E633D, 0xD53FCE8EEA27E01B, 0xCD3B3A6FDA145054,
    0x2F5E98DE2E632DA8, 0x161C8DFA8F41CB20, 0xFDDBABFC41BBF65E, 0xE29CF547B40633D0,
    0x60F04D7662FACEF4, 0x02C8033B198F0A7A, 0x7D969669D29F20E3, 0xE7A7F348B92ED854,
    0xA92AAFB9EC282B17, 0x9D2346CA573B24BF, 0x0D153D52D2D2B29E, 0x2B94621A2DF0AFA9,
    0xCBD82BC6130C7955, 0x56F4CAE364814DAF, 0x889A91E520733AE4, 0x13B597208E5B1882,
    0x16260C1F79C986AD, 0x3C947FD622D4D048, 0xD47C6B06C92ACA56, 0xF5DFCE900367EFB9,
    0x645AD15E49FF37C3, 0x30713D29A0EA14FC, 0x8C732AED5B8D1D3E, 0xAFEEF3960FC53BD0,
    0x1B971AB08DA0C5CA, 0x8D070B8D1361363C, 0x78C9B70BB9646D86, 0xEFB76C01FE592469,
    0xBA449B9E1C240AE6, 0x75B4A7A9409F6913, 0xF15A4DFC7E24E947, 0x6EECA449643AC044,
    0x21FB69D73162E103, 0x11D5170EBB545BD8, 0x529BE6522592FF6A, 0x3BD8CAC2F3919BFD,
    0xC706EF973D07E438, 0xE97C6A8B0A04C546, 0x9D2109E76A7C2FF3, 0x39ABF5A256CCCC03,
    0xDEC1EDC18A426EF3, 0x78A988D4E95EC54C,
];

/// Square keys of a white psilver.
pub const SQ_WHITE_PSILVER: [u64; 82] = [
    0x4069C318073D2D32, 0x721DC03F018B12A3, 0x4B23443ADFABA046, 0xD6DDBF0CDF0A4CD0,
    0x167A8DA4688449F3, 0x13491CCCB514E790, 0x4D9E7DBB48F2BCB8, 0x70D929596808E1EA,
    0x7F2CD8BB8640A3CC, 0xD81873EBFF666845, 0x460FCE2273FC9E8F, 0xFE2D24AB5F730931,
    0x7697641C781DAB70, 0x8A32FC97DD01F460, 0xA6595E5BFFD87898, 0x856E42F65CF8143F,
    0x3E86D66103C822B1, 0x15187D0CF7D8837A, 0xF552295F694BBBA5, 0xA6E0412D0F72EB91,
    0x0ED0F126F50BE581, 0xEA1CDD33D4554882, 0xA1DF112DF7EEF521, 0x65D6304AB3B14B20,
    0xB3DEA0165C572CD4, 0xD8AADF35A8027448, 0x1D4AE9B3A3F3B485, 0x64DC300349B8AE49,
    0xA5B8FF2CBE44258B, 0x787AAE4DEC3E4195, 0xDB70898CAB4347B7, 0x8168F6CD09C72AFE,
    0xE5819CBCC6E1582B, 0x35F5EED0817F68B2, 0xD79CC43EED15C3EA, 0x1B6C372DF3FA46A3,
    0xB424B1BB287CEF78, 0x4DA6D5F784CCD5BD, 0xC82B941B48DB1957, 0x6B95A95A8DEEDB55,
    0x961099146A923D0F, 0x15C6ACAA607C3E3C, 0x1A401290EF4C8668, 0xC30D593456AD6C2C,
    0xF695F40575B5B080, 0xBDCDC03AFE3BC6EE, 0xBA531136A6A3F876, 0xD06309BFA273121B,
    0x3A6004122C8A30A2, 0xE4F5C66851C7293E, 0xA6C66FEBFF6179A0, 0x2E6AD3BE57E6D3E8,
    0x8E0C84AEE502FE53, 0x1F85A91D9ECEE1D9, 0x409A40430D8072B6, 0xCC7B02BAD53ED38A,
    0xC6432497F1A71D2C, 0xB6B883825DA2C759, 0x5955B32A5E8C377F, 0x5497D66228DCBE7D,
    0xD3D6C7E251C0C64A, 0x0DB0E73217C9591D, 0x4406D6F336C5F11F, 0xE7F5F2C8BC205AB1,
    0x7F36A83AAAF5AFD9, 0x09534AA3055D57FD, 0xB37141877CA46A43, 0x4F74DE45530585A6,
    0x934A9499F15F71CB, 0xC98590D527A568F3, 0xFC9E5D85E7826ECF, 0x014B1A8A23E6E656,
    0xC59C518CC009EDF9, 0x1FFBF57D641EE2AC, 0x8E975105E8E0DDA4, 0x9E445CC816B56464,
    0x6C625B00C5DEA9DD, 0x5B5827946F9DC03C, 0x228A88965EE6B4C5, 0xDEB488F68F2166AF,
    0xB579AAC1E4AE74E0, 0x7295AB0756530EB6,
];

/// Square keys of a white pbishop.
pub const SQ_WHITE_PBISHOP: [u64; 82] = [
    0x8FC65A3EF67575D0, 0x62CEAC1C386A3E56, 0xCB79E1B436C2A2EB, 0xC5A558C1F8D1EB62,
    0x6E3B2007E1359B46, 0xC064883129A9A196, 0x28455849BA169BC6, 0xB48B97BF710D18BD,
    0x5C4B25DCF13F6359, 0xA1DE1827D76C8BE1, 0xF3E09904E788BEBB, 0x02C0ABF72F542A6E,
    0x94CC1C61EBDB1A17, 0x128C68250E73D9A2, 0x5E71C052E8B28C73, 0xA6CD13601DF76113,
    0x1BE6D9215B3DC880, 0x8216F571C502A55B, 0xF5CE6A7078A8ADB0, 0xDCD2CD41A555B6B5,
    0xB5F2D6E56B329A6D, 0xA42D34C9EC6DEABB, 0x9642CAE911E9C1A5, 0x14359B7232F4A258,
    0xE7AF311B1734F87D, 0x3A658B97DAD69EA9, 0x61BE27D7E06BBFF4, 0x8C534D0773CE1092,
    0x01312AAA6791A6A6, 0xA43664951AF0DD59, 0xA126224387FA9BE2, 0x1267509B6449F863,
    0xCC1E2F143B90D6F6, 0x7CFA2EB4FF890D43, 0x86792461AD2FA730, 0xAB6CF5DAED82E94E,
    0xBCD6FD272B18E4E5, 0xFD5901EB25CB5524, 0x7E10CA47B84F2FD9, 0x7D2A238E17A646A2,
    0x2C1F0785B852E014, 0xE0ECFBD3034BAF7B, 0x8AE74F4F1F8C4DBE, 0xF0007A2EEC502B05,
    0x09D2C2A56FA2611D, 0x04BE3D4F63E1ADCC, 0x1B82769EEFFEFBAC, 0x4D6C3B7C84E9361A,
    0x5054F18946CF1DC9, 0x728F8587B4FA4C08, 0x932FB0BC89B22068, 0x45FB7B1EB5366A5E,
    0x92ED5B8CDD291A12, 0xB68FD515715D34FE, 0x25A766E367B61B22, 0xA54799C052C55D3D,
    0x671D979023475A91, 0x68978AC64D9600BE, 0x95EE3AD84564323A, 0x98B75BF4D58875EE,
    0x8C10ECB26DB4EF54, 0x8858203CF6648565, 0xF254612D25827AA4, 0xBFE0F4D55D6FF46D,
    0xE7411BB4D07A3239, 0x04D6EBA0423AD178, 0xF6F45535E7D14A40, 0x226803E54329C0BA,
    0xD49D5C238EB8E118, 0xD6A9B73CCFC802DA, 0xBF97F79DACA7F594, 0x9B9DF42978D4D316,
    0xC43E9E90C7274B97, 0x4C4202F049DB95CF, 0x7144F6E151E17787, 0x7384C589F595ED23,
    0xA574ABC487333D26, 0xDF5C35D47CC7940D, 0x120E6C4E5B1D5225, 0xC9085B8D094A22FB,
    0xB77E9C91DD24266E, 0xEE3B195CEF3647DC,
];

/// Square keys of a white prook.
pub const SQ_WHITE_PROOK: [u64; 82] = [
    0x05169691065994CE, 0x5ECB7E3013DD5AD0, 0x3DACC8BFD1892751, 0xF25948F42E895C1E,
    0x4FBF0E82D57C6FD4, 0x3B6AA0EBCC293495, 0x03664B3D2DB8DAAA, 0x0DEE8909493CF22C,
    0x7BE7993E640DD3D9, 0xEF5CF474962CCF0E, 0xCBC7C3777F4DDE72, 0x1E333C4E0E9CBC99,
    0xFDC99A6C5C41CBC0, 0xFFD2D63B70643E77, 0x4A6B74A1AD1BDE6C, 0xBF758653408B1C67,
    0x1657AA97855FB74C, 0x46AED8DADF184101, 0x97ABD070E866819D, 0x2035F325C72E1728,
    0xE39230D595FAFAF8, 0x9A0D3FE39618A2DA, 0xE412068C35233EF6, 0xCA00AC68BFC1229D,
    0xCCB886F3DD2ED6E9, 0x7FD2B52B620943B3, 0x8C7E926582CA7D7C, 0xF7395E3831D98BD5,
    0x0ED851A2D6CAF45E, 0x0F2F522807C58CFD, 0x13B07485718C0EAB, 0x3B91A913BFDAE02B,
    0x05E3E57A911D7ECA, 0x5079324049C1DF96, 0xF337C154390C60AD, 0x78EEE162EDAFCC79,
    0x892655CAA3190571, 0xBF814DA1A5B7B2F6, 0xB4D2BC111A3BAF83, 0x247117B7BD90CF92,
    0xA8CE2ED85AD0285D, 0x397C6BAD42FC2E6B, 0xD661F2953ABEC985, 0xEB5A3589E598C0B8,
    0x95A3CC9BE8FE7F57, 0x9189FAE4DBA94FDA, 0xE3142DA43166F67D, 0x595FA1F4BAAB7156,
    0xB649D26AB247B596, 0x052F2B9F118ED46D, 0x7983946EEFB78953, 0x426FFDF6D5150A55,
    0x7D8DC1E58D896099, 0xFF2A9323F172B1A6, 0x67749BE2602BEE6D, 0xE4532C6269695326,
    0x87E3EE2757AE19AD, 0x93BBFDC92F30C86E, 0xA6E7C62F198580D3, 0x14257D036BD4957D,
    0xC2E03D3DC311F83B, 0x5D4D82355645529F, 0x2967595884BAD3F6, 0xF5FBD934CF0C694B,
    0xCB1B5ED6EFCD2170, 0x93453ACB81B0CBD5, 0x9558A4BBDBBEA4F6, 0x3F4F332C754AE886,
    0x9D88B88901A8134D, 0x0539A6A76C88EF0F, 0x35A5F4A8A765EE52, 0xE3FE10F7BC1A1E25,
    0x013F13E75AAA4CEF, 0xE185956571EF6013, 0x908777CD312541FC, 0xEBE22266D320133F,
    0x46A90AB4F91C7317, 0x12E6646815D1F907, 0x459A514EB511083F, 0x5485BCC6ADDE2535,
    0xC1B64DC1298FEA1E, 0x31B74A7F5610B806,
];

/// Square keys of a black pawn.
pub const SQ_BLACK_PAWN: [u64; 82] = [
    0x12FBF7766C61488D, 0x066AF29934992716, 0xD9E260E956C7A301, 0x868892B9A099D3AB,
    0x3D87E215F34EEB81, 0x7462E19132E3132E, 0xAD437191A5436898, 0xA83BB72D8F9FD6FB,
    0x419EB8D2698BF5A9, 0x665F04740D54851D, 0x06AC8F830C65CA1B, 0x531B345872ADC4B2,
    0x0A3BE72E541CA983, 0x5162B41232C4986F, 0x056979A010C04BB5, 0x5AE8882ABC1F77D8,
    0xC4BAD0D50AE17D30, 0x0E605B5FD3A7E7F1, 0x71834DCB2CCC21A4, 0x1837869900CB1B2F,
    0x2727DCC2D3563F29, 0x81E763D7ACF34B72, 0xFE74F0A176C8A611, 0x3F991D6CE182218D,
    0x9023132DD5A8B417, 0xE4C77FCC76353893, 0x221D8A2DAC8DCF2A, 0x7FAC611A4545423E,
    0x8ECCCDEE89DD805C, 0x9B882315510D58A7, 0x58465DA9DB86D4EB, 0x131AE1C8437F9DDD,
    0x972388E0135640B7, 0xF38328210FD8130A, 0x87A77035B47401EC, 0x191D76947D9152D4,
    0xEA96EA512748ACA5, 0x7888FA7EA5E2E3BC, 0xBBDB0E5D2D918F59, 0x010F6F69F636EE77,
    0x27C88A832607B3B5, 0x0D727A4219AA7858, 0x442661279AAA705D, 0xA213B4C4C651F30E,
    0x1296AED83F309A39, 0xCF439E7E4073DE16, 0xD3A4A94D6D5C106D, 0x6957FF0EEAD1F6DB,
    0xBE246C3B35CADC00, 0x434609D60E97DC55, 0xE07541C9AB593F03, 0x4D9AC4231BFAE5E5,
    0x4359C442032F088A, 0x71C6F6171B3BF471, 0x8BA29FC2136339AF, 0x00B796AE401F92B6,
    0xC2D847B4360C78B3, 0x5971B179E5C3CBA6, 0x387128A3D9C2DEF9, 0x1F59D40A260FF5F3,
    0xAF118052FA126F48, 0x8A65A0B458A8327F, 0x6CB6CA6E06935EA2, 0x81FA6D9E2FD76EC4,
    0xB40E54D903FB8100, 0x05576F3C83FF82B8, 0xA429F7CD0A2C9895, 0x7E4D53A3669715B0,
    0x4CE867E6FB7B0743, 0xE48BDECA6D3E4331, 0x99A3B0AE3B050CE5, 0x14A61A217913A01E,
    0x6FABE19337444EAC, 0x8644BDB579171D31, 0x206F2A0F162F973E, 0x5C145E34084A2301,
    0x4EF1409F9B375C79, 0x67122C065C0FCED7, 0x10D919EB32714477, 0x7A2B743E246737A9,
    0x42B3A0C915328A2E, 0xE786885A0F20FD13,
];

/// Square keys of a black lance.
pub const SQ_BLACK_LANCE: [u64; 82] = [
    0x7C7E5603DD6E9146, 0x756576CC7BCCA788, 0x92F1C1A1D44FDA06, 0xE8AE0D869539CB0D,
    0xB2D458B63F3B211A, 0xF6E8F90B9E2A875A, 0xC7801E481FC50B6D, 0xDBE0A1D6D8A69180,
    0xA7B08B3B106B53DA, 0x35589BC08C2841D8, 0x091398FB63BBC576, 0x61368FA819CD5C49,
    0x4F85903681F37530, 0x2E8FC26A50AEAC5D, 0x940814F12CB6B822, 0xEE1D6DFB16BE3001,
    0xAB74ABD558D3F279, 0xA55F195B6F3C67B7, 0x68EB57A84FF71E22, 0x40B4C7DF8561EAA5,
    0x6072EBC9E3F593BE, 0xA445263C2801AAC4, 0x41228534569D4382, 0x0B3F8DFE4ED77335,
    0xB76D8BA2BEAC4339, 0xC0A22FC8AE52B16A, 0x891C4563B57FD684, 0xD1B05C9BA10C6201,
    0x78BD24D9339FE8FB, 0x561BA7C125A98D09, 0x3659FB28088071AE, 0xB6D27A3501C7DAB6,
    0x69F44EB20D4CE0BB, 0x352D6A8AEA504F77, 0x53FF8087A8CA38CC, 0xDD0C680AF638E8D5,
    0xB39AAE7C49575931, 0x2CB52AE8D72440AF, 0x283549D570C9441A, 0xD47418C865E4B7F3,
    0x625989186354BDCD, 0x1E46CF88703F9425, 0xEAE08E68A5904FF7, 0x77BE852BB296A5A2,
    0x66A6A1F90B408B9D, 0x31DA159BB9DE0669, 0xDE56A296364CF9B0, 0x6862CDC5E82884C8,
    0x11836F4BA1198C76, 0x2D4CA9BF8C486D24, 0x29AA807F94B24754, 0x7478A0FE1CFF8A8B,
    0x1CD16F30B8F0433C, 0xB1925D50FC52168A, 0x225F514C07242733, 0xE325AEA7607C97A2,
    0x3EB7D9E47E998933, 0xD0B5C7BE2E3D3A7C, 0xCF8BEFDA24B5181D, 0x330E215997A7B42F,
    0xFFE31968F57741DC, 0xE029F5325CFB3AD3, 0xC3A5BF0720D1C4B5, 0xC41C25E5A2AE80AB,
    0x6F4ACE4ECC73F3B9, 0x364A9CC3A9C854DE, 0x56FA7ACFAE6C818F, 0x4FC8F4BBB9CE9FE6,
    0x634E976E1ADCBADA, 0xFAC9BF2C87B5CAD4, 0xF190940B8DE5B1E1, 0x731B67689E0B88C1,
    0x72A7840FE8CE299B, 0x055FCF68E7C9EBA1, 0x43B8832B17FD4FC4, 0xCBD1C5DE6FB54F22,
    0x6BC2162C5E5CEA45, 0x995425F8290A6006, 0xC2AF75F40218DA07, 0xAC839AFBBAC6E308,
    0xA97193EB818E796C, 0x23A8F9BEBB28FA6F,
];

/// Square keys of a black knight.
pub const SQ_BLACK_KNIGHT: [u64; 82] = [
    0x88A09F8399628647, 0x538CC1598173B4F3, 0x323B86DA407885CD, 0x6599CF0447FC4C5A,
    0xFFC768ABD921338D, 0x9164643FA7391DF1, 0xFE05FF650A9D3FC6, 0xA9DC18DF9DB51A99,
    0x6F40600DD2231ABC, 0x3B28CC3E98B35694, 0x482705DFB16D8B52, 0x97784CBAD642AC53,
    0x10DEF3B48617464B, 0xF7A819348F6B0DA9, 0xCB45BA6BC417FA63, 0x46C6EDD6E34B5322,
    0xC3B38F0486088A89, 0x3CF883A491101E71, 0x13FFD16E87EF4779, 0xABDC0FDC12237950,
    0x7B9EC5B20B822B5B, 0xAB2922DFB32F118C, 0x484AD606A1CB9477, 0x631A972D298FFF42,
    0xBF4292857EF14C10, 0xE3700C82EE625A6E, 0xB3CF49EF72F3C68E, 0x677518451ED7EFE3,
    0x2DC2D1E8E1A600A1, 0xBF372AFA3D52C126, 0x62DD8F1D9547C1BC, 0xE2827F88C29FDE2B,
    0x6E1DFA926D47809D, 0xDC7C61D8B95A83A8, 0x2F960AA87F446133, 0xDB174590B4C72F2F,
    0xA95269495F35BFBA, 0x243CFFE345758CC2, 0x42D821EB4AD4AE3A, 0x27811A6BD233E00B,
    0xABAFEB8499CFF670, 0x2D43ADEC4FFE19F1, 0x8BA89FC0FE19A405, 0xA19F5D43D8D7BCC4,
    0x6D307A8C889F497F, 0x4B8618D7CBB2FCB9, 0xC2ED6F0C6703F5FA, 0xD503581F11CB2957,
    0xC59F1EE5F247148A, 0xEA1BF547860B8622, 0x3EF138F1656F0481, 0x2E863124D63408EC,
    0x3D9F610F2125363E, 0xC6759C01A450265E, 0x3ABD735C17207438, 0xEE531051761B0894,
    0x4B763462D1097FEC, 0x286E4B8888C9EA42, 0x943A58161F8F3788, 0x07260F96A3F066A0,
    0xD5071A52D15E69AB, 0xDF87D2517038BE93, 0xB89E97282455F151, 0x857650C861F28DE9,
    0xB8A7EF6CB69D4219, 0x2AB6ACA9A5B5DADA, 0x49D7C13372D2995D, 0x9B1A186090A3F2CE,
    0xF14430327AE822E5, 0x50403CF463E7AAFB, 0x85EDBF1D618EB17C, 0xF1E768652B837250,
    0xC2651534F472D58D, 0x8AC785083A447411, 0xA450F1B39406E519, 0xA08EC81456D5F636,
    0x8EF8B40CFCE5543D, 0xC7FD636970892714, 0x9FEC70139F0E1C6D, 0x1F426ECA25DB10F7,
    0x54BEC437B1E2D52D, 0x0827900C32E122FC,
];

/// Square keys of a black silver.
pub const SQ_BLACK_SILVER: [u64; 82] = [
    0xC7EE052100AAFDE8, 0xA3BE4D3919559470, 0x25F20DF93E67008D, 0x4E42D5BBF9B28D3C,
    0xE58DF15DCC35D547, 0x6F8C3373D8B29D24, 0x8332E8157931EB27, 0xF5EAF261C0838936,
    0x995EADF20D0CB31C, 0xFB891EB12C4B2E06, 0x59994503AF453D50, 0x2B1F34C1441494EA,
    0xBFCDF67030481BE4, 0x62B68B188C45209F, 0xF664EBCEE56AD778, 0x721F635C5CE5487F,
    0x8E466F25941C8719, 0x144789B62CC5CD23, 0x07632EC7B2B7993E, 0xEEDD3AD450F7F0E4,
    0xE2292C56129FE86D, 0xEF541436D890CCAC, 0xC9F61842BB11518A, 0x8B463B69C119DB75,
    0x1E47B1EDBD78C04F, 0x3985385F4CE4A59F, 0xEEF59E09D3A77E1B, 0x00AFCF1DA1DF2F41,
    0xB0A4A03153CF49D1, 0xE6882A083857C3B9, 0x74853B22BA925300, 0x62B7170A141FA6CA,
    0x653DD1E0BA63A263, 0x8A3C75D11C3F30A0, 0x2340EDF0EFEE0446, 0xF6B95E1DEC55AFE3,
    0x18A98FD029A03816, 0x0956E101ED372456, 0x6F4EA96B5223A342, 0x721F893A2149800E,
    0x2B9DC1F432F0ED66, 0x118CE890DAA3AF1D, 0xF63DADEE54DA9930, 0x732EC83821F770E4,
    0x8BC10A5B917CA344, 0x008F5E843CDA95FA, 0x7E018D29B1B7C19F, 0x4762EE624DFD79D0,
    0x9C04C007E1BCA18C, 0x7B411DB8E6FAD271, 0x69170F8193A7FCB0, 0x4FD1D62405ADDDDE,
    0x4E7593673342B5E8, 0xBF30DECBA98E9081, 0xCB0D5964305FB3FD, 0xE7A9C88D3FF1E012,
    0x6E4A51A78BDAA8F3, 0xFED35BD028D8514A, 0x69113BB256ECDA0D, 0x125F5FDF23D8BB99,
    0x3C754D50395F5B3F, 0x90D9C8F0C816FE53, 0x8B906ED414264658, 0xCC3CEB617AE44216,
    0x05B49E49C12E9CD3, 0xEB990F071B8FEA9C, 0xD16FDBF074225BFB, 0xE2BDFC4773D9E05E,
    0x7D00E7DCAFBFC577, 0xB4E72BBCE66E2BBE, 0x56C8183A77F631F3, 0x17FD387BC935F38A,
    0x10AAF0037531BAA9, 0x685A45FE2915E895, 0x355A97AD4866D12D, 0x361141D79624C1E3,
    0x65F3FA1341455AA0, 0x64E5CD4EE8B833FE, 0xD397AA8B9F7E6D9C, 0x0262184BF94DAA93,
    0xA83BB3EBECDC964B, 0x89CF41B30451BA90,
];

/// Square keys of a black bishop.
pub const SQ_BLACK_BISHOP: [u64; 82] = [
    0x793E53169CA21762, 0x3828A36CD3A28CA2, 0xDAD2F6CAC2016142, 0xE276F2ADBAD574F0,
    0x9B4E8F9FE4F230BD, 0xE5664DA106965BD0, 0x4EA62F70E5706019, 0xCDAC3E2D54BD3CD0,
    0xB69842517050871B, 0x6B6F57A232E9DE28, 0x47E9576EA88CF9F5, 0x6968EAF3A604C79A,
    0x942A2127318688E2, 0xD9C7A6F7BB80DFE0, 0x96DAAD78220E9AA1, 0x51EBBAA922B93C9F,
    0xB40158BDEA169208, 0x8C784EEEE19A8FF6, 0xB651533C8B8D6C4A, 0x081C9FE7DADFB2F5,
    0x71A2B1E252265AA5, 0x7532E7F5EFB2CF0A, 0x16C7E57A61FC852F, 0x103C7FD5E2DDCD8F,
    0x828DD9374074D684, 0x65A66071B2ECE99B, 0x9B982E91F84CF5DE, 0xB100004A88E279DC,
    0xA0B77DB21F07895C, 0xD3A850D3DC8E7410, 0x8BF74D38F2BC40DA, 0xBFE49C2891EC566E,
    0xA3DECF1D480AAB2F, 0x3C98C134954A6F4A, 0xE09CF2A6B7776EFA, 0xBD7AFF7636F19100,
    0x2D97E90A9DC7273C, 0x798E5D7198FD36F3, 0x37ACD83D8A8D8332, 0xFEB875A6A024994F,
    0x4DFFDFAB9506C548, 0x2D27DAEB7F879315, 0xAC2099C0D87CAA68, 0x39D2CF0D7132D4E2,
    0x1AC343BC72E454C5, 0x73DAEC0EE14540DA, 0x6D920EBCC2D914E1, 0x09FEEDC318149E04,
    0xA727D78DFBE5D562, 0x0538CF8D5531BE16, 0xAC41C4A8160D8ECB, 0xBCE53344CB8DC803,
    0xBE7DEF0BCDFBE7C7, 0xDABACCC8A5BE1C07, 0x85DFFE8A04D8B920, 0x65A9DE701F992A86,
    0x535F05BD2D91A5AA, 0x73E1390740859AC4, 0x3293B4F3382F6069, 0xAFA622C23C3E2ACD,
    0x7EAE365573FA5866, 0xF7F52E2ACBD32808, 0xDCE66EA2F5DF6115, 0xF106590B63A5474C,
    0xBBED1D6FCBA16730, 0x98C9CC543861E94F, 0x79F06DDC3D25DC7B, 0x4143C18810F4EC4C,
    0x2FE3D8ACF30B9568, 0x6D484C8A99837269, 0xA2D22A1954B4C61B, 0x1302358D8CBDBEEE,
    0x0CA453A408DAB9E2, 0x7F7919674BED1C2C, 0x1CEFD5AB96F2DDA2, 0x6E1039F5E9822106,
    0xB37EC6D100DBA4F6, 0x2D9678581D6E7DB2, 0x718BB366ECF66E37, 0xB0A4703295AB77F8,
    0xB82E9DB629C19900, 0x6A02FEE7707AE428,
];

/// Square keys of a black rook.
pub const SQ_BLACK_ROOK: [u64; 82] = [
    0x676F88A93D385518, 0x24193E4D07B54CD6, 0xBEB575EB581B88CE, 0x98F5C8F940295482,
    0xF546236E19B4866B, 0x7F1E9C10651C9A71, 0x8AE3ECBCA7A1BD75, 0x20EB90BDB81297F3,
    0xD549908F827DD3FE, 0xCCD88CF32DD5C71C, 0x26C0A9272DB962F8, 0xCCB4C9CDED4AFF3E,
    0x81320F453214F5C8, 0xCF1AD678C449E8AF, 0xBE84AB30F1CD0AB8, 0x1A40B7225D4709C2,
    0xC7A069E572B8556A, 0x0C8ED3CB8B29EC95, 0xF5FFC8BF491B5151, 0x373FAAB13A0499D4,
    0x27A1384D598F97E5, 0x0096E26807A847F3, 0x60828100A743CD84, 0x6085B23C189EA2EE,
    0x76D4A8A8AEB6E910, 0x9C262744E070CADD, 0xA9162E9FFCB43FF2, 0x468F5A57815CB59E,
    0xCE492A8C37059952, 0x7E7CA36D9256241D, 0xEF6510D63308FB2E, 0x8AD259F2EDCB5825,
    0x0CDDBEC8566E9CB3, 0xD604424513FA76D2, 0x094214395195A0A1, 0x8CE5DEEEAF0A47D0,
    0x5EEB5285F5FD8BDD, 0xDA179E9901B9247C, 0x82EBAC0DF61053F4, 0xBCBED501B3784B0D,
    0x7723BA99F1F68F2F, 0x46B4C798026499B8, 0xF578F339608D08E3, 0xF9B7CA941F74DA00,
    0xD5738C48578BFF43, 0x823F257F64C14585, 0x70291D340B122FC4, 0x8C8C7459603A23F6,
    0xFC25BF8D0FB80C72, 0xB35FDC0BFCA92CEC, 0x02D60762FDF95F3C, 0xBFEB5FAADE14D0B1,
    0xB141ABE7DCA517BD, 0x4E80F158D145BC5A, 0x1459F230D81C99E2, 0x6587F2013D6DE83C,
    0x369252830CD7C4F9, 0x6DE5C5F2353A297D, 0x53B1084ED3B57359, 0x35541AB537F73F05,
    0x3AE5E282DC0E7580, 0x68513BABD808539D, 0x3C28075DFECA446E, 0xCFA6B18EB3A66394,
    0x847262F2E4215685, 0x4A8B767A6707E186, 0x54A85CC1CDC9076A, 0x894623B378820956,
    0x0BA36D65FAB7144C, 0x6306F8C5E505A05A, 0x9AC3CA70E6E02967, 0xAAD2C367B8CD0FC1,
    0x231CDA5313BE82AC, 0xDC7E3DFA496C3AC7, 0x950F4CAC70325829, 0xBD235142E997A00D,
    0x34C33CADDFAFE672, 0x08759E52CA4C81BB, 0x330765A70FD5F349, 0x1925796B85433314,
    0x44808137AD70FAAA, 0x7FA6CAFE29148F27,
];

/// Square keys of a black gold.
pub const SQ_BLACK_GOLD: [u64; 82] = [
    0xF1DB0B4DD4A1B358, 0x4AC38CD3C12D726D, 0x0CC95DD1C9CFCEA3, 0x9EDDB8AE13164164,
    0xDE70E2381AE9853A, 0x13EA311ABA99082B, 0x26166A0B4FF344A0, 0x18617CDA7EEF4B56,
    0x459133BFE19F0B43, 0x288B37673A7325A9, 0xE96C83423A05744A, 0xD84AB75EF83A4636,
    0x5387F5AD0F3F3479, 0x340CF10AC87F75B9, 0x996DAC4CC313ED70, 0x135426ED4BF034ED,
    0x72776FBE1DF33B01, 0xF2C244C62470C943, 0x6ECF587EC50B1082, 0x53B8D00267F63CE9,
    0x270A22FD2F4EBD6D, 0x632D6BC977FD635B, 0x4D2F2A247B1A26BA, 0xE1631F28721F2AFE,
    0x8ABDA7BC6DAEF33F, 0x496E5EE3B7452CA2, 0x4EB0CE797136B170, 0x85D5983C394B49AA,
    0xF21A7B83E3C4E637, 0x9CD1CB058C62064E, 0xAFD372415781B852, 0xA1CA0647FE558305,
    0x03CB6DB99F0ABDF2, 0xD6D59F630AD5D113, 0x1F768C73F28BFEAB, 0x1E9AD7EED29D3D68,
    0x35A64BF130B7677B, 0x3DF81210A1171965, 0x8B5364970D79BCB1, 0x812133DFFA1B31A3,
    0x6498DB1930610009, 0x6B7078FE99515E5D, 0x73A748245737DB4A, 0x2CACF4E4DE1664C0,
    0x594DE417E15D942D, 0x4C01FB06D9592CC4, 0xC08214C7BF333560, 0x319462D4F30A96A1,
    0x9512D9D4F9F84AB6, 0x04A4E0F1568837C8, 0xF38A3356B4233D3C, 0x458BE839D56B3258,
    0x1747B0768E822B59, 0x6953F5B8AB6F2C23, 0x611B59C8ED48D920, 0x7E841404901666D8,
    0xBFF27903812CAA94, 0x6BE7A4C1CBD19D9A, 0x98D7F3EAC83BD229, 0x185D69989F1777BD,
    0x754FF7E30DA220E4, 0x0B8140E811592CC1, 0x926E3657FD3F623E, 0x69988A675A9BA2BC,
    0x0E0BE5014DD8F1E0, 0x742821E5871336C9, 0x4F78494EDEE60A17, 0x71B0A174C52644C0,
    0x6715A27C0B8FB247, 0x9788B8AB6B38BD54, 0xA2D8F3D9A8661D8F, 0x2B09B976734BE425,
    0xCAFA0D2313393907, 0xD87FF627CAA88B76, 0xB84EB49BA98D39BD, 0xB28770521E1A9AF9,
    0x731311A9EE32EAB0, 0x5584A2C1904E155B, 0xAC675B895891427B, 0xF07BC1C20D1BFE0E,
    0x155D2E69C62C613C, 0xD65F6CE38D7FA29C,
];

/// Square keys of a black king.
pub const SQ_BLACK_KING: [u64; 82] = [
    0xC99B56B138BE63B1, 0xBDDF2D9208214E3B, 0x2CFBD6E005321859, 0x8FD569B918FE0374,
    0xF3BE6FF4A164632B, 0xB64AC850D1C2C64A, 0x1087C14815878390, 0x248D3ABB0BC748B3,
    0xF25A29C8979C2F05, 0x2E8F799285E09253, 0x9B656DE043273752, 0xEC528426B7CE984E,
    0x1323550AD853FC63, 0x069E16039567FFB7, 0x0FC58928CB1CBF24, 0x319A00BB7E2B6202,
    0x311252F2FA2B7AAF, 0xE592F16A58CD8489, 0xC7367E62E0E408B5, 0xB246C45A130EFC20,
    0x7CD17078ADBF108F, 0x4178227C7D4554B7, 0xEA9104D8CBABB4FD, 0x9CB25E39B049BF00,
    0x7965F41BB1D1F44F, 0x5573234ABD7BBA86, 0x0E7D31AB380CE6CB, 0x5BC1958A9E54EFED,
    0xD52AC47CF3ADDA1D, 0xC324C0033995FE62, 0x08DC778403B28489, 0xDC46D704B4B45275,
    0xDA243AD4657467C4, 0xFBB3F5589C8F9685, 0xEA61067EFAFFE3A3, 0xBE5D268FB3ED2358,
    0x92F8CA4DFD4D250E, 0xA3C35ACA51ED06B3, 0xFD768391956A5CF2, 0x84EAAD4462A541A1,
    0x1E5205E14BCDBA89, 0xF4E6ACE5253C087E, 0x41BAF5C63CF986A0, 0x2579E4F4F4E2D2B0,
    0x411585B70DB0D0FE, 0xCEA1C823EF5D0EC7, 0x70D49EEEC343E359, 0x1138A60CD392E670,
    0xB749291F1E245D88, 0x142D2C8F51A6E982, 0xC13149A792F04E78, 0x79599ACC96EF0CD7,
    0x96F38DF4DCFF467D, 0x2EAB76A8B1651225, 0x366D09E83C8C3CE2, 0xE4C564FC9877DA52,
    0xF3CB53A782BE9C14, 0x1CCCF8FB5A7865DA, 0x328A42B70FCCE74F, 0x70430AD599DEDC8B,
    0xF27760AEE72177BA, 0xE9169019F738F9C0, 0x81F0351D5C17F170, 0x14784478D939AD4C,
    0xEF4F8FE6DC8C9EDD, 0xA0FCDA667D78AF52, 0xF65EB6D9492A83D5, 0x5E584CD54AAE56AF,
    0x507748963AE0FD65, 0x963A0E5B4C9896D0, 0x4158DF2FB8D70534, 0xDBF4CEC0326B199F,
    0xA9525E3548715905, 0xFACB54C0704EC33B, 0x603E2365931458D4, 0xA3B3DDBC7F232ABB,
    0x955C66E40AD2D082, 0x425FD18073E7CDFC, 0x4F3F99B9FD53ED8D, 0x43C3A7055538BEAF,
    0xB70C04AEB34525C2, 0x4952BDB0EFECF47F,
];

/// Square keys of a black tokin.
pub const SQ_BLACK_TOKIN: [u64; 82] = [
    0x4F4B24EA451CD886, 0xE6BD379341B378AE, 0x87594B6279C8FD52, 0xCD149296D4E2DB28,
    0xAE47F191C20C5E98, 0x6320299B06305820, 0x152BBCA425EF243A, 0xA67498A91F6950D2,
    0x0BA1B9B1BAB404EC, 0x38831DA4CEA3613C, 0xEB89C4A8BC10D08C, 0x319D9E423E299D26,
    0x00C1F26A69EA2B0B, 0x0D206125A28B6C49, 0x61B8C5D79EB10A8E, 0xBBDB0BFE502CE2BD,
    0x12A0CB006E45D1BC, 0x76C7D01C6CFFCE60, 0x63517E3F26752F50, 0x150B01003BCFA71D,
    0x774F7A8675A4097B, 0xC7D7D921115E118F, 0x20759C251B739FFE, 0x14F4BDF494D5DE8C,
    0x9734899DB045F222, 0x30EF2E430E72B061, 0x1E442CB3BA4F3A33, 0x86D7674C86E5DDF8,
    0x20F9ABA813D10E89, 0xA18DD3834067F3F7, 0x86825E369965CD4C, 0x4BF738A18360FE0F,
    0x33A927081CA675EB, 0xFB19750A358DE394, 0x98A3CE3AB522CAD6, 0x7B9475218B435ED4,
    0xD646F29894B7FDEF, 0xBAE2137DF0549CD4, 0x38ECC1180F67058B, 0x72FB1BEEBF3D2769,
    0x0DC9A70DEBBEE06F, 0xEA6A026E70442850, 0x8C719DE2CFDA68A6, 0xEF9E52C697D5107B,
    0xDE4A38A13C4DD497, 0x538C6212BD19DC67, 0xD2C35A1529EB5BAB, 0x58483C25F7EF0F74,
    0xC232B2D87A629225, 0xB403CBBC98398EA6, 0x2AAE1F46DFE1412B, 0x3B89C47448DB6510,
    0xA0E6850E091780D2, 0xA52CB66865FE5F06, 0x595E7B8D6EB51B80, 0x78F3E51C5810D407,
    0x546463533D18895A, 0xAA0541F927EABF73, 0x1CFE145643505F8B, 0x56663E79EDC3E262,
    0xDCFBC66E462CAFCC, 0xF23D0EEC3346E429, 0x0C794FFB6D6CB183, 0x6FFBC5DABC1C4A22,
    0x033666460EA27001, 0x0E5C9B2723FD5253, 0xF3DDAE88CEEBC35B, 0xA7AA0F4E70B01BBF,
    0x6B86D44E21B509EB, 0x2CA4CDDF68D98AFE, 0x21C8F809699B66D2, 0x548D86B6E67A96F7,
    0x67D3D1857506354A, 0xBBBBF074FDFF145C, 0xA5D14EB9EB54C215, 0xE28D74B26224A4A2,
    0xD3FEFD74E93730B2, 0xC4B60D20E932F328, 0x1C53530F7424D834, 0x1DA98165E340EAFC,
    0xB26A44ADFAECA5F9, 0x53926EB98DD35850,
];

/// Square keys of a black plance.
pub const SQ_BLACK_PLANCE: [u64; 82] = [
    0x45AEB375785CE888, 0x33DB6D03ECF25260, 0x3E3D93E6D5F93E17, 0xEB38EE84B8B2D8D5,
    0xD76FE748B995911C, 0xF891B6A6F888646D, 0x61327FB38142C24A, 0x82E4A633D9244577,
    0x7F8DD2D1A26B1B28, 0x6BFB8406716BB0BD, 0x69BED1E454F99565, 0x99A57254DC58E0A5,
    0xB31E5038A16F3A79, 0xFBC1179DEB5438BA, 0xD5529D5C20FA9AD5, 0x3F9C741D575CACA5,
    0x15E2FAE5E7C0D1A9, 0xE221117F7AB02BC1, 0xF2A38BB35FB3853E, 0xBA975079C6541762,
    0x601BAEFC823B5310, 0xCE5092AC1FAAEC7C, 0xB7D17BD2231F6D2E, 0x123608EE8DDCC7A8,
    0x944F4F04C66F18C6, 0xB45713E246FDABF0, 0xB2F482BCAA4F448C, 0xDA927EC2056DB63F,
    0x0CCB53FD5AE48261, 0x3A6B7BDCDC80815F, 0x8690636EC692EFEB, 0x3F5FAA041309D9F8,
    0x749F789DF25781C1, 0x9782B94DC673969E, 0x5843ACA97F1ECF27, 0x63CFC5B881178321,
    0x9186F2EFAF31400B, 0xBF3B0DF4273D44E8, 0x02A60CD0B12B47BA, 0x67A0E1D3B22129B3,
    0x1D8505CBC8A2B7ED, 0x638BF2AE25BC6B41, 0x8929D86E0ADF1F28, 0x3C69B502C7B6E018,
    0xA23AA467805E4C34, 0xBDC717544C513B62, 0x09CA50CE2D499487, 0x4F5BF07B06504D1F,
    0x05051EC7D327CF52, 0x06C57CEE42ADBC2D, 0x6E711FCCCDCFC3D1, 0xB242D5AA2D71915E,
    0xC23242E17267673D, 0xF15F847F5C712737, 0x1F96554ADC08B66A, 0x85AF3ADDA40EF5A5,
    0x50B05A782CA6327F, 0x5E576B2299F1A695, 0xF0553AE04B6145B4, 0xCBE473276D1B7E87,
    0xD1A2960513B8553F, 0x762B4251250AE8CF, 0x3BB298511B1DB851, 0x53A199996E18DA1C,
    0xDE9450C946AFE807, 0xA5996FDB98384D6A, 0x48A1DB7150E5CD72, 0xA92054B53E27898B,
    0xD7F2F5EA30948FAC, 0xED4EB4FF0D9FFBD8, 0x21A4FC571A877D6D, 0x415D22EF7A05C07D,
    0x0AC8710474600EE7, 0x46B382003E1A27D6, 0x346322281ADE9E57, 0x1FBAE4D3E8D41043,
    0xA921A75F68C36869, 0x95362EAAA82F1CA4, 0xED260943405D3828, 0xD041595D9E242DBF,
    0xCEF48D0DCDE0A479, 0x04AF014A34A2FDAD,
];

/// Square keys of a black pknight.
pub const SQ_BLACK_PKNIGHT: [u64; 82] = [
    0xD8E67BC315F0B742, 0x288BEF8AE5732633, 0x77EB22A3D758C169, 0xB5DB6CC5F5C342CC,
    0xE3AE4D26D4CCA5B4, 0xA43483E19BAB8878, 0x7237BDE6C3D897ED, 0x7236CF0D2A8A271C,
    0xA35CE9CB9C1657A4, 0x5122E5765A820D3C, 0x15C7BBEE3541E87D, 0xFED95B7E83C89932,
    0xF17C3B8046D64884, 0x4FF3A6E92594F537, 0x3659A96487933C40, 0x986E8CBAB09F06CD,
    0xAFAE6F519F2B7A4A, 0x45562ABCC5022318, 0x70C35BFAFD4550FA, 0x6DB37A3C1DCA6237,
    0x79D8D5EA187DECD2, 0xBC7210399CEF3146, 0x51E0E727982AD2B2, 0x71A171E6F9823830,
    0x32C994D105016B51, 0x0F678F14B1C92C13, 0xF1583D4B74CC4784, 0x28D478413A914D54,
    0xA415F18403480951, 0xF03DCDF1E35D7B37, 0x875B64B53E496BA8, 0x359CDCE7C7F89C50,
    0x7219E4B6C843C83B, 0x77435FFDBD8D14BD, 0xD7990280F574F612, 0x34633E91FA124624,
    0xBED62A034C34FE54, 0x0DFEE3B084233A9F, 0x79BBD64EE2F915CA, 0x8956663A2574FEC7,
    0xABE8498F035DC67D, 0x56AEED2E96BF40FE, 0xD54A7452A3B025EA, 0x7DDC4E24329A37FD,
    0x5BEA8E02C6CBC976, 0xE1E70E9179CD2AAF, 0x8A9ABA9F69378819, 0x8B8D1661A762F855,
    0xD5DDA4DB6AFEAFC9, 0xF66DE52F8BE99926, 0xE365F9C9B0AD84C3, 0x65BE22DAFDD6F491,
    0xF4382E661067C301, 0x51FE7AE6A6CBC8A7, 0x443EFCE64BD68854, 0x3CE576F31907A6DB,
    0xD20C200C34F76F5F, 0xC0C5ADBE4A767E21, 0x1FB5DB603EABF9A4, 0xEB19165A338CD72D,
    0x4445B25F7EC8C53D, 0x76C741886D8459E8, 0x01E37D242EE530CB, 0x82EBBD345711F174,
    0xF267C9DC6E697D93, 0x924A75B47679692C, 0x03DC27116B75B837, 0x0FDF1C2A81CD04F3,
    0x4A894BAB0FB78C50, 0xB0923A065CBEA3A1, 0x51EA922127D475EA, 0xB7B92DEC7934C606,
    0x05BA021A4AC3E7A2, 0x3CA6D8EC831D3861, 0x021717C10373EA9B, 0xA54A8D39AC797E16,
    0x23E6F7FA43FD0A55, 0x695E666A92E25445, 0xB610116918752FBB, 0xFB2D5D0B31468A76,
    0x347175B542B27A06, 0xA69396A006ABAF51,
];

/// Square keys of a black psilver.
pub const SQ_BLACK_PSILVER: [u64; 82] = [
    0x725B2FBE3ED37F76, 0x2B880AF0C37C39C3, 0x3AC0EBF33F28B712, 0xD0D6E1814445C474,
    0xDC1FC13B42DF0E6E, 0x6D9C1A2EC214992C, 0x95AEF7C9EDD5EE24, 0xEDED910909C60B7C,
    0x49503B452BB90D3B, 0x0C98CCD6A224A628, 0x8E5D26CDF4B55217, 0xC6909328EEA33148,
    0xCA8A85DFE85F401E, 0x021F5BA895E1D976, 0xEDE24DE8432E2C7E, 0xFD74B94E3A66F792,
    0x4402CA9CAF7B41CD, 0x564E64FF61BDC27D, 0x403FB001338E1D71, 0xED96CFCE67251BD5,
    0x560C29305692D9C6, 0x1C97DEC7AFD95270, 0x595DA52017CAAD39, 0x03A5FDAA74B49A9E,
    0x007DB2823B7C7A04, 0x69712F8EDC305B28, 0x5E9E4C97820CBF4C, 0x1205B4301143D8C2,
    0xAEEEE322CB4B6810, 0x37EE22DDBD36B2D9, 0xC271F5F73FE92DF1, 0xBB099A6B82D0B59A,
    0x06D058910FF35354, 0x2710C7AB102708CB, 0xCF476C194C2EB6E2, 0xDFCA40DA42EBD271,
    0x8BE4EFA8F81BE3F9, 0x90A1AF95646887BA, 0x5A1751D2F3056165, 0x9F7B9C6A8021E0C3,
    0xACF2095FDFFE7874, 0x0C74D0E6A2C0E164, 0x02870907A7FBCB31, 0x34A91750F98D4C67,
    0xF597867AC2DB583D, 0xE74B98C499586BD6, 0xD50FAE4ED4AC76C2, 0x1E541C65FE8AC3B8,
    0x0C8F64D3F2F44782, 0x1F67EFA11E4AC9CF, 0x5014E64BC237FE8A, 0x876CFCBB8F73009B,
    0x2EB206CA014153F0, 0x3DCBD3DD50902506, 0xD9D9DD18309F0366, 0x0C693C9052DA37BE,
    0xE16789B8AE68D878, 0xD552FA5546A8A809, 0x7D3AC066F397B714, 0x8427AA232F03CA01,
    0x955817C049C85668, 0x3796B12D358DFA21, 0x577C4EF0458152F0, 0xBDB558A8D8D9FC5F,
    0x987445995F8DC0BF, 0x0FA0E56C5436C30D, 0x590C5B04373EFE7C, 0x250D25389F6FA75A,
    0xF77F4DA5071B5E2C, 0xC347FBDE5B56270A, 0x0036651CED106C6E, 0x261DA0B8067D3744,
    0xE51E1D149260E32A, 0x1F026EEBC5F8F11B, 0x1C88E2D7664A86B7, 0x602D1ECC876E69B7,
    0xA7F1ECA944E1ECA0, 0x5D79B205F9BDE851, 0xB6664F5813EB32AE, 0x6584DE5A2246E0DC,
    0x42EAB807D07DA5B0, 0x03DC8E515BC17430,
];

/// Square keys of a black pbishop.
pub const SQ_BLACK_PBISHOP: [u64; 82] = [
    0x789A664A1DA5716D, 0x67AFDBF9BAFE11BB, 0x4ED204A91D0A32F2, 0x9A53D969FB82227E,
    0xAF7ADBE12D1C31E8, 0x0B12D0272503E2FF, 0x4535424C86D24C34, 0x935DB473BB6FBAB4,
    0x67E611B4669C51D7, 0xA09A81C65FD10489, 0x72F4DCA42498BADE, 0xC57894E368ADFCB5,
    0x97870659017E1CC0, 0x78D2BB2C8AAD3643, 0xE4ADB895118F87B6, 0x7BCA45A3F3569853,
    0xA6DA7C5A6152F788, 0xE6C33C5F1D000038, 0x782851D5D0AC26F7, 0x8DBEBE25C8207F29,
    0x3BCD71BF59EFFA41, 0x89F276B042827486, 0xBE6825559FD52975, 0x0CCE9AACF50E61B7,
    0xE7E52373C22C917A, 0x6B56275ECC4EB641, 0x33FF03503B1003C8, 0x8A5B20043E3B7C7B,
    0x3B9CA2A6A19A8FFE, 0x868BD7D8695B2DDC, 0xCB81AFA3D0E15E06, 0x660AC7BF581EC22C,
    0x26C8436AB4D989A5, 0xCB91023D7262BB0B, 0xBE6946AD0830852B, 0x6DA12E6F70DAD6B1,
    0x28159974EACF30C2, 0xBED9E5CF07B73771, 0x925009479C29F59D, 0x38FA70F78232A4F7,
    0x1D96FB661AC63B56, 0x0EDB82DA74BA330B, 0x3193FB7080A67E83, 0x86E1A62DA2B4503D,
    0x00733BF4FA61AD50, 0xFCF5192D6C829299, 0x688690CE77423990, 0xCB2B7627B0684E80,
    0x11AA81565D780A2D, 0xBA86D9A713457B6C, 0x3C5988DD9AC9C5D0, 0x743C6492373154B0,
    0xB9EF565BF391F5E8, 0x1AA2A669328A0603, 0xCD8F2556E634E7DE, 0xC267646FF3DE6847,
    0xD2C1B7328A1F17A3, 0x6FAAD2C99C270E9E, 0x617C444391E016EA, 0x8B04C09FF58AC5A5,
    0x57A99FC065896F70, 0x9F1084CA51253AD7, 0x0AC8A498E8810957, 0x0057D67322D68987,
    0x45EDD81B0832DC3C, 0xF5BE9F99D5F76BA7, 0x38B166D4F6E9C786, 0x977A99F479BE45C4,
    0x7640EF6292DA56D7, 0x11C53B8A91071E88, 0x86E7ADA774C0551F, 0xF47D9AE0E85D62B5,
    0xC24FF37DA77564B0, 0x115CA019B8A08B96, 0x8A262226B3212166, 0x7AA140BC919F1C79,
    0xC738620C502100CB, 0xD19089ED8EE6E03F, 0xB95C94E51E172F55, 0xC3FEEB054B75999A,
    0x963146085A877E6B, 0xA71A9B5215E45F60,
];

/// Square keys of a black prook.
pub const SQ_BLACK_PROOK: [u64; 82] = [
    0xF94CB3C95BF4F05A, 0x166DFF76EB3985FB, 0x1982C643DE8E403F, 0xB6340D702E75BE54,
    0x87B8B38E49F6ADF8, 0x0F53FC7175C977B5, 0xA907AC29689D26D9, 0xB8CD7979834842DC,
    0x02408CF2D21921D9, 0x773BF3947940E917, 0xC83D383593959639, 0x2154CC894E95133F,
    0x9F53A38BC0E7C05A, 0xED22382D887624D9, 0xF5EF15F55C9A7B4C, 0x074BB57624C94895,
    0x4D1B71ED8CF9C4BC, 0xF4F92D19730A8128, 0xCFEA10A3BEBBCBC3, 0x323888788C56D34C,
    0x46924D9288E2DCE7, 0x3CD9D534C45426C2, 0x8A9B1E7E1AFC626D, 0x2F703B6605D87553,
    0x4B930358CF4DD949, 0x0B14C118158A326F, 0xF2B15B6E2B9A5A54, 0x2B43F90C502AC63A,
    0xA7E9AC002119AE03, 0x630DD50BBBFE9A2A, 0x5008F8CEEEBE5509, 0x41396D75CD0F4C0C,
    0x0EE3F64870BE0D0D, 0x5F1B6CDEFA9E3355, 0x69E2F1C324E56C8B, 0x8E5AB1407A3FD59C,
    0xC1E12A2E904ED815, 0x8744AA0639E7220A, 0x874ACB49FB1B6D6E, 0x0046AD814B7D7249,
    0x838181989D6E9ED8, 0x6B399DA333735DAB, 0x9B8880969AF8982D, 0xB546AD713CC93EDA,
    0x544B663B79F6B856, 0x3E520C0FAAFDAD74, 0x8DC902BB40BBA7DD, 0xEEA1EA63C8ADB274,
    0x7F3B713CBA2C6D8D, 0xE4214FDC8F4D7ABA, 0x96B4AC69047E929B, 0x1F588703D21674B7,
    0x165CB9AD158469DD, 0x82CEBD9A314B5DB9, 0xBF17A9D8B06DC7AE, 0x3358B30AF2D8C798,
    0xB49DBFB17F61DFD6, 0xEB8E1A28297AD8F8, 0x55B210CBB2830887, 0xCEA08F548024BFDF,
    0xBFFACAD6054F832E, 0xCA29FCE7A46287E4, 0xC17BA0E5479B4B83, 0x46D3E8979B5D0384,
    0x8689C29239981203, 0x630768B9B961F668, 0xEBD2F89727258694, 0x0BAEF22CF2F394CF,
    0x9248B6AD99D7DC8A, 0x80207B49F7026DB9, 0x6B27CC376473B565, 0x9D1FA67C9C95728E,
    0x72FF59D22AAAEE1B, 0x3E08BE4256C55E7D, 0x278959ABD7425477, 0xB5CF3E2676605747,
    0xC1B12F113AECCAA1, 0x5BA85CA163398B05, 0x15FBCF85A35FDB14, 0x093B4923CE4A874C,
    0x9683EC8731220ED5, 0x2C8D042DB82D80AC,
];

/// Hand-count keys of white's pawns.
pub const HAND_WHITE_PAWN: [u64; 20] = [
    0xBC33C67A16686E12, 0xFCD1E141AF5B3D5C, 0x60A8BDCAB794D52A, 0x7F9A7B04AA95131D,
    0x5FD0719BD1DD590C, 0xA92282C6D3880F74, 0xD637B1BAD169CAC7, 0x06E0A668BCE0EC31,
    0x17C4DA84A9F93185, 0x96D3BCC57201348A, 0x2981C35B263864E8, 0x286C3A1C7098901F,
    0xFD2F10BB6F32143D, 0xE5AE163C1BD697A9, 0xE157B65CCA4DE826, 0xD6775081B4765F53,
    0x8CE1D58E1CF06CB6, 0x3DEFDFAD0DBC78F0, 0x66CE1CB8D9F55E79, 0x214C161EC4F9B951,
];

/// Hand-count keys of white's lances.
pub const HAND_WHITE_LANCE: [u64; 20] = [
    0x70D40813C0522D9B, 0x568AD6CFD6C8954D, 0x1739249181EFCCC0, 0xA66ED1200A0D46D8,
    0xFEEF233E881E7CF1, 0x78C4C4EEA2A2FE53, 0x555E1BED47EF6D1E, 0xCC1F49D20B7D8A0B,
    0x5BCC907C8360ED89, 0x076214EEC04727E4, 0x60CBE7F38D129DB5, 0x78970F69A5AD818B,
    0x1BBCBB0FFB304E83, 0xB4D87DFED305DFB0, 0x513DB281C39C83D8, 0xA89F7F2987B32468,
    0xF9D4BBA12635A787, 0x3F202418547C9453, 0x0C7EE424A566BC04, 0xF9466FBF6D0490F9,
];

/// Hand-count keys of white's knights.
pub const HAND_WHITE_KNIGHT: [u64; 20] = [
    0x3D3B7BA6A8D3C2BE, 0x43ADD5DAD335F962, 0x88BBE46B7EE4D3FD, 0xA80FFBBABA9D2D94,
    0x0A17E4820CD3F942, 0x3DFB1B570AF4C3A5, 0xE7D9D19935A2E994, 0x7B7A46B0E28C7B51,
    0x6E744C1F65FE535D, 0x7EC4B03BC339D88F, 0xE67CDBBFC5323CA2, 0xA30565D58B8553E6,
    0xB573FDAAF179D9B8, 0xCCA86212A02A1ED9, 0x6A32A541B9FB69E7, 0x4EC7029B9575E04B,
    0xF2481C9E167208E6, 0xB9F175FA91EA71EA, 0x487B059CC62D6543, 0xA0AF6569764708CD,
];

/// Hand-count keys of white's silvers.
pub const HAND_WHITE_SILVER: [u64; 20] = [
    0x930A3214554B7D60, 0x710526C7BAFBBEE8, 0x62732A5D42CDC297, 0xB570FE4CE1EFB379,
    0xB30094632E55F202, 0x9FC732F7785D1C0E, 0x6CF5D1F9899A293D, 0xE18925B2AFBFDC59,
    0xB0DA9D1927D86968, 0x4D90B96508D9E472, 0x2DA334A8F68B1DB5, 0x161D165E5F032F0C,
    0x070E0BA5045361B3, 0xBE9E7FEDC9AD2848, 0xE50387F8D93A28A9, 0x10A8F5167B74112C,
    0x0053145760C45661, 0xDAC2C9AFEF2BBF62, 0xE56CCCCFDA0C58A0, 0xB415CB4498B8AC31,
];

/// Hand-count keys of white's bishops.
pub const HAND_WHITE_BISHOP: [u64; 20] = [
    0x6612B4DBB6867AE4, 0x032789A16D89816E, 0x429E6F85B808A931, 0x84D71668C29F3D85,
    0xA53F1F987F2DDF60, 0x44A060200B816D5B, 0x8D3889998DE29EE1, 0x5CE418C3965CEBC7,
    0x623C55AEDF0B2C3E, 0x3977FA065B425CBA, 0xAA8EC33D52107A41, 0x3DBE29905CB3B549,
    0x4819FFE149FE7E9E, 0x95CE044182044942, 0x925680343B548278, 0xDA8FCDE79E9F1478,
    0x94D87365731F9A74, 0xD1E25A4F1181A694, 0x0BFEF1F862D263B9, 0x08C432CBC0E8CEF5,
];

/// Hand-count keys of white's rooks.
pub const HAND_WHITE_ROOK: [u64; 20] = [
    0x6D34DEAB0A99B22E, 0x9C654D175262F0DA, 0xC971F2F5197FE65B, 0x6F911EAD99A07880,
    0x7CD70CB561522F41, 0x412DE1562CBA44E5, 0x5220D159C410A5B6, 0xEBB10D7663286B77,
    0x180072FE0F83C1C4, 0xC68E60E50B214A37, 0x424E714227C4E81C, 0xF5B13EFBEB47B8E7,
    0x6527EF2031769FDB, 0xB86FD25EDE5E9F6F, 0x2C25214CE2E1B9AC, 0x5FC95A20FB5C29FC,
    0x7362087D68ED07D7, 0xC5DC3EE7D157E3F1, 0x29331C121D1FD800, 0x6D46E3D4749BD732,
];

/// Hand-count keys of white's golds.
pub const HAND_WHITE_GOLD: [u64; 20] = [
    0x015EAF814AC83C99, 0xB11BC71699AE2B08, 0xCB8C84BF11DDEE4D, 0x11D946CCE17C2F55,
    0x8320E752CE78CB9F, 0x3538A61F43C6A4EA, 0x0C8F83A885690BA2, 0x4B6F172BF4C34794,
    0x79CB1E9B13E76C96, 0x82917E9280FA6A4B, 0xE2C25804C71A7C45, 0x9A372BD4D80C7F24,
    0xB29B62A13BC88DDA, 0xDBF1A2660767AA3C, 0xEA74E36ECB8B9C4B, 0x41D46784DD5F52AD,
    0x6DEB64A5A16724B5, 0x62A03B16E73E4B37, 0x293C0E4612E6CED2, 0xDF056FA7A715D8FE,
];

/// Hand-count keys of white's kings.
pub const HAND_WHITE_KING: [u64; 20] = [
    0xF7E7428EEAA2F860, 0xA69D94194EC3F4BC, 0xD166EEFDADA1F9E4, 0x811B119F3962B224,
    0x11B83462BB2A656D, 0x7692AECD53722BCF, 0xEB89267C333AC0F2, 0x53EF35622DAC73EB,
    0xA99A6E5D294D88E4, 0xDE60C1F4D86A75F9, 0x45321F604AA4605A, 0x3447F079074B62DC,
    0x0E2ED1EEE47BD9D2, 0x4461C1D19763A72C, 0x6228728B26C3AB2E, 0x052F80ABE46C6D75,
    0xCEBEFB56A7E6FC29, 0x796BA1F91599E72B, 0x30B18600EB8F237A, 0x0BD0D28418480A05,
];

/// Hand-count keys of white's tokins.
pub const HAND_WHITE_TOKIN: [u64; 20] = [
    0x1B921280C7C8F10C, 0xE66FFA5B183B983E, 0xA30D9757A029407E, 0x86A0B36C46F4354D,
    0xEFEEDB75780BA741, 0x30DFF3B5B752C89B, 0xE7E9D5B543B19498, 0x774B9763E1650797,
    0x8988BBE1E25FDECB, 0xA2717FAAE9E99265, 0xC122291F5D0ED0E6, 0xE997CA16D1CAFE44,
    0x6E1397EA6650CAA6, 0xBABDFE77855F6668, 0xB4B7C37B4D92E336, 0xE411E0281681442F,
    0x7C48E2AA48057003, 0x9DA775697CF99789, 0xAB05480FCC07C500, 0x548581A6DBCB85D6,
];

/// Hand-count keys of white's plances.
pub const HAND_WHITE_PLANCE: [u64; 20] = [
    0xECCCA4C4E01AA08D, 0xF94967EA7A46B4B5, 0x99EFD5EA94D87501, 0xEA344895F07AD37F,
    0xE8C9D27143D1A447, 0xFC1F01DAEE5CBB7C, 0x8BDBB0B8C71F9B6E, 0xAA601C9E61DC92EF,
    0xF5999AC12061F2FE, 0x902AE5A3A71A5FFD, 0xC8B87B895D4AD5BB, 0xF3ED0758DDEA9384,
    0x222BA45092CB211B, 0x0CEC6E39BD9E3C4E, 0xC47E3698CB009491, 0x40182C1F2AEFBE9C,
    0x9A269F6447F4DAD1, 0xBC580500D59D6DFA, 0xE7FC6580BFAC6566, 0xE3A6A4CA41BA3C88,
];

/// Hand-count keys of white's pknights.
pub const HAND_WHITE_PKNIGHT: [u64; 20] = [
    0x1E9B091544CD7971, 0x6437EE5120E00E8C, 0xAB644F66B9B23F09, 0x0EFF788CC2F59662,
    0x4307B01B488E66A2, 0x1C1AA2227E5C036C, 0xFF4F677B45A31C05, 0xCC205183D55DAA0A,
    0xFAEF3844F39D9DA4, 0xF8F20DDFBA287DA5, 0xD9F6DED284122AF5, 0xE3463D9140E9DB9C,
    0x0955A8839A6BFA92, 0x83FA3CE8D993EC1E, 0x83A38358189441CF, 0x38437F0D77967EC4,
    0x855BA7AA37EF892E, 0xB714CEAF537440DF, 0x0E282BB5CB221AD0, 0x1FCE59FF8F528FC0,
];

/// Hand-count keys of white's psilvers.
pub const HAND_WHITE_PSILVER: [u64; 20] = [
    0xBD9F6718F51ECD35, 0xF5F5980CAFFFE5A4, 0x709C4DEC41AF96BA, 0x5710736CA1CD98F2,
    0x9DA9210103B73C98, 0x73C069EFB63BE63A, 0xE0ADFA54F5E148E5, 0x403686A37A28B8F6,
    0xE246B986179BE911, 0xA96738E33D9CE142, 0x2ED7B712EFB21EE9, 0xA41D911510AB47E5,
    0x2E7604D9B6F83BBF, 0x4DB33C646C88CF53, 0xB66A569980D26B95, 0x3E354A6BCDEC3806,
    0x9DAC1CC64637FC3E, 0x550F162A8D57DE31, 0x86F19A13ECE920B9, 0xAD43BC339DFF0714,
];

/// Hand-count keys of white's pbishops.
pub const HAND_WHITE_PBISHOP: [u64; 20] = [
    0xD47B3E73D712F138, 0x31D4E732E7F4E1B7, 0xC99F3F2D5154BEA1, 0xF4C396F7E4B313A6,
    0x062A71129169EBA8, 0x1795F4ACA7E41817, 0xF55DD334720665A8, 0x5637C309423E5C8F,
    0x56EAC00B7172EA21, 0xE3E937E42687CB8B, 0xFF043A62E8085ABB, 0x63C069EA9878D47B,
    0x776F00EAFA21996E, 0x5F13750063AD26B4, 0x732290D6DCAB8E0C, 0xD9C0B925C62D42B7,
    0x05A919384A9D0F4C, 0x31A51B9812BB2499, 0x6B6CEB68113F4947, 0x6E11DBA0CEE6EBD5,
];

/// Hand-count keys of white's prooks.
pub const HAND_WHITE_PROOK: [u64; 20] = [
    0xBDC2320E5A182E54, 0x1EACCB67B8A0E4FA, 0x63A9131B571A9A0A, 0xE0EB841505FFB78A,
    0x4AE7BB1AF0EC88C9, 0x28B98537416682B9, 0x2F65C2790DC3F484, 0xDE683DDCBB27CF2F,
    0xD7092365F80D2A58, 0x50F9C5367A7F71EE, 0x9CE178527181AE6C, 0xB7D19BA2EAA680DA,
    0x192B294DE5D55EEB, 0xFFE4AC3EEAB5C7D9, 0x140B9F83A999E89D, 0xF641C059ABF52651,
    0xB699D0EE027F02FC, 0x6C2C953DBF1D85AC, 0x4FC590F9BD57C970, 0x6C263C7F6B7B361D,
];

/// Hand-count keys of black's pawns.
pub const HAND_BLACK_PAWN: [u64; 20] = [
    0xB700766458B17656, 0x294A1552E1B83906, 0xBAC41419DB2A0097, 0xDD6BAEF0482A2B94,
    0x9DDB40BE6E0BC7B7, 0x3E1DF39045C8488D, 0xCD09697D25DDDFD5, 0xC6F77EE81DC4B57F,
    0xD5FB941ABB8B98C8, 0x4924062F600027F4, 0xA8B73F9A58C97C81, 0x4BC72C130D90554C,
    0x9534D25589AC323C, 0x5AF9600E81D378E8, 0x44772C02A2E57235, 0x6C6A0A26E30CD363,
    0xDE702A55F9FC2A9E, 0x25133A8D8DFC33D2, 0x474743B527F7CC44, 0xE4C85C89DA73F6E8,
];

/// Hand-count keys of black's lances.
pub const HAND_BLACK_LANCE: [u64; 20] = [
    0x7ADAF01B495C7498, 0x17EEE13F151D554D, 0xBEEF1E20E53842E2, 0x86B18030700028AE,
    0xB9498B255FC6CA9D, 0x30C0E8D70156E882, 0xB6C49DFE0CA87A14, 0xADD4AFFD127D7947,
    0x325211F7ECA1651F, 0x6FF4DF2BCF70A253, 0x8895F3B799C24E2E, 0x1859A5E9CB544433,
    0x97841FC12C8D7C63, 0x728274EB2E71AE32, 0xA7C9FDE1A3216DB1, 0xDADBBA459517A166,
    0x05E0E8F263CA4463, 0x40328D3CBFB08D53, 0x74F823E9CA5B9054, 0x48B9B8D2261274B0,
];

/// Hand-count keys of black's knights.
pub const HAND_BLACK_KNIGHT: [u64; 20] = [
    0x3593C2F16847235E, 0x979444D3343DA62E, 0xCD0BBA2B4E1AD689, 0xDF43E1119030E4A4,
    0x977B7B5A93C286BB, 0xA8F5BAC1A3419128, 0xBD5A8E0A8FEA029F, 0xEDA94C05FA0F6798,
    0x153F94427305BE4A, 0xA10800A5DFA158D1, 0x43197AF9CFE33A4F, 0x303B7173DA6384C1,
    0xFC2FFD6F4759B253, 0x3E2067C6CDE44C1F, 0x022805D2EB69BAA9, 0xEF2894248DB4910B,
    0x7A85E07646C1F1D6, 0xBC46476B2A4913DD, 0x9287C362D56C1A2C, 0x836CC0D82A43198D,
];

/// Hand-count keys of black's silvers.
pub const HAND_BLACK_SILVER: [u64; 20] = [
    0x8294CB23F8764F8E, 0xF3EA6C61FEC8E2B0, 0xF92AE014215A762D, 0x8ED03F447BC66008,
    0xF2CF3141294C5361, 0xC03CD05C0639E3AD, 0x2BF6BE96A01D4B41, 0xF689CB3C0121F1A2,
    0x5CCF007D74BA65B2, 0xB23A743336E362BA, 0xD31A249676F8C6AB, 0x008047D285304A07,
    0xBAF45B76A8ACCBB6, 0x5A6AAF2CD9B57EB2, 0xDD7694BD5BAC8DE5, 0xE38DBDBD8A69E271,
    0x86BB8542245737FF, 0xD4D39BB5CB0FC83D, 0x8B9ECC08277C25D3, 0xE3B53FC759848DA8,
];

/// Hand-count keys of black's bishops.
pub const HAND_BLACK_BISHOP: [u64; 20] = [
    0x5163CED04C356A08, 0xA1593A11DA20F5B4, 0x305E71D2871917EE, 0x997BB60CD26ACA81,
    0x529144A3A4C34FFA, 0xD1ED54C500B2F8FA, 0xDBF61E101F002D5F, 0xF586C2A8EAEC92B9,
    0x109A7543375609AB, 0xA91EE4C9AB2012B6, 0xE9A453B3E4648625, 0x3C2CEEF708D845D3,
    0xB618931930B0E344, 0x9C4F7DA20A387AC8, 0xE643627D927F974E, 0x6DEA929CC66E3057,
    0x3FE9A338DAFEEB0B, 0xD4B5DA3B03F397AD, 0x3D145542C1FFAF1B, 0x57E53D6DF9B7E8D8,
];

/// Hand-count keys of black's rooks.
pub const HAND_BLACK_ROOK: [u64; 20] = [
    0xE334C90E2FA6A5EA, 0x5CF119A33BF6CB88, 0xEBBA45C37D80067A, 0xF5F8EC6625797A60,
    0xCFA8AA54EFB48CA9, 0x039E93BE5542AEBD, 0xB5270839BF70D815, 0xBA5165EEA918F0EC,
    0x56D048E44CE3F8CD, 0xA8CB976428D6C574, 0xD5CEED73C33D1CC4, 0xBCEB6ED6DDFA6B7E,
    0x860FFE2872DE82FB, 0x6EE06A42E663743C, 0xA8303781E4B7C6EA, 0xFCCDAA4AC516EED5,
    0xFD4A52AC39F9C744, 0xB43F1065A05DD5E4, 0xDEC0BB00B0F3539F, 0x9F70ACCB55E79B16,
];

/// Hand-count keys of black's golds.
pub const HAND_BLACK_GOLD: [u64; 20] = [
    0x565051FFF121F85E, 0x3486B0A58A7F5A0C, 0x52EB774EE5EE82AE, 0x6F85516BD4F1C727,
    0x69F3818B1818F867, 0xCA38CE1ADE04AC74, 0x879922A09194F316, 0x61AE8A31F59A68F8,
    0xFECFB9A66E86A50B, 0xB6C104CA78F53CF9, 0xC243AC333872D689, 0xAE6985D8C5980469,
    0x379E71C262DDFBEA, 0x6CFF6E2606C6A59A, 0x04871C6B73AF85C1, 0x75F0F7543DFDD361,
    0x8093246916D1B915, 0xBDFD5CEAD2A52DD2, 0xE9637B6F984D8302, 0x525EE37863595ECD,
];

/// Hand-count keys of black's kings.
pub const HAND_BLACK_KING: [u64; 20] = [
    0xBA501F4A3A7224F7, 0xDE6EDB9BBBD12486, 0xC4841899C88EF180, 0x8DFEBBF1F40EABEA,
    0x0F1906FBE625421F, 0x7C7061B77233A302, 0x7C63EE2B0F512C6F, 0x571FC9DF0891CA2F,
    0xFF63FD5847C08A8B, 0xF96D375C8B7CC300, 0x26C7FB37ECE454CC, 0xEE2F8FDDE0659A06,
    0x5CEF8674B722837E, 0xF6B132CDBBC95906, 0x89B2C3711378BAB7, 0x0EC7B9F695F7D8F2,
    0x9C2EEA14560E0E60, 0xAE7459A290889BD0, 0x4EC91D314805BDC0, 0x396CB2CFA9C9384A,
];

/// Hand-count keys of black's tokins.
pub const HAND_BLACK_TOKIN: [u64; 20] = [
    0xD94888A413F67733, 0x484F98DF66E9690C, 0xF044D3ECE6CA0DEB, 0x487C94D624994E47,
    0x1ECCF8444F495BEE, 0x53A72E8D28178D2E, 0xA7248E3A0E2A0F58, 0x00431F22BF2C91D3,
    0x5189229A8CD7E55A, 0xCB40338A999D12B4, 0x40DAE8795E0B5CD0, 0xC5CA8B58AA83FFF1,
    0x3AE1F8CF2FB75B8B, 0xA9A6FB27365C8551, 0xB1EFAEA4A26A5FAF, 0xD44FE901E5185C2E,
    0x650011AA88488259, 0xE17BBC0553AEBD4B, 0xABF7424514FFF873, 0x81ADA0A77F1E5CA3,
];

/// Hand-count keys of black's plances.
pub const HAND_BLACK_PLANCE: [u64; 20] = [
    0xE528CFA26460E741, 0x403AD27F3C95BC5D, 0x26196C6814DE7F4B, 0x9801D1DA9AAC5294,
    0x45EA6DBB945CCC86, 0x5EC7736B46FBB223, 0x9B384982FD7F3A1B, 0x68A4D9B09EB2278E,
    0x117C714FC9C14B81, 0x4C5ED1CF04759840, 0x4BE96F72D882D026, 0x3A106A63BE04E732,
    0x3CC44920505BF6F7, 0x0173C66FCBBC9F4A, 0x8BE9656C4594891F, 0x606424A8084B03CC,
    0xA4FFD61D278BC503, 0x5A540BA617955BF0, 0xB548DED4C281FF20, 0x67E2E322E3B2D5E1,
];

/// Hand-count keys of black's pknights.
pub const HAND_BLACK_PKNIGHT: [u64; 20] = [
    0x9B834265F6A7D876, 0x455AA78BC0604AF0, 0xD22748C66F129AF9, 0x47923CFF493EBCFB,
    0x2E954A521B0F20CA, 0x38D49E9742EF4703, 0x416FB4A1E36F6495, 0x3D4DE207634403B9,
    0xE91BB5287F8B8C22, 0x726B67ED675E88CB, 0x25EFD2C1CEB00879, 0x9C2E5C481BA3372B,
    0xB3F4216818343301, 0xD08BF39F5A0CC90C, 0xF5D34D6A2EC63ED1, 0x69AD722C53E3857C,
    0x6763E6F9BB5508C3, 0xB4C84BC9F1875B7F, 0xEDA944B42F7E0F3B, 0x6D249D70F63082E2,
];

/// Hand-count keys of black's psilvers.
pub const HAND_BLACK_PSILVER: [u64; 20] = [
    0xB616A9807876C527, 0xE24C6E0203C416D9, 0xF051BDC28ADCFD67, 0xAF5DDEA9D647657B,
    0xB0E9F93AE96C97BA, 0x6E4C5F7D8674CF40, 0x5EB879C3F14CAAB3, 0xEF936ECA714F7DFB,
    0xDF9B9CFE0E7BFD85, 0x863961C55965AD74, 0x87C80FD45CC22D11, 0xEF19E8519C8BD8A9,
    0x927C6B33F3D48921, 0x6C371A0A0CBE729F, 0xE1107C5C35F7B8B3, 0x9A1822E704CBADCF,
    0x822C30B59C5D8C28, 0x87DF34324B3FB73E, 0x66E98F167B5262CE, 0x727EEE39A5C9086A,
];

/// Hand-count keys of black's pbishops.
pub const HAND_BLACK_PBISHOP: [u64; 20] = [
    0x1AEED19DB42C29E8, 0x771F0384F6CD9ECC, 0x74B1C119D532483D, 0xB8B3EA67FA865F7E,
    0x3F75100C5C4BDBC3, 0x49FFF076167EDA24, 0x0ACD28A99D2853F3, 0x88891646D07D7FD9,
    0x3735DDC14ED31715, 0xAA1BC23EABEF1D61, 0xC20E7ABCD76C2142, 0xFAE965438B4E2200,
    0xBFB86CBE2AC44002, 0x91A2C325A9F47BB4, 0x8AA9BF66BD88D131, 0x053DBB0CE0BDD330,
    0x9C4C6A39ADF270D0, 0xD3ED5319B8F4F4B1, 0x821EAA3D3DA291EB, 0x14F2584367ACE27C,
];

/// Hand-count keys of black's prooks.
pub const HAND_BLACK_PROOK: [u64; 20] = [
    0x8B7FD1D83DC402E0, 0x0FF31EA005D9A6A9, 0xB26BE625BFD44784, 0x7D0F55B182FE86D8,
    0xD4188EA35BC1F884, 0x92D98948BC129123, 0xE62332F991BCEB3A, 0x959BCE9A753B3CDA,
    0x0E463A64C3C92D33, 0x775F91B650043F7C, 0x13DC0FFD4DC0C027, 0x6619307628AC97D3,
    0xB653BACC5AC9D284, 0x73E4E62C03E4BDE7, 0x374D52D734883A69, 0x61D53BBB9B918887,
    0x8A024C57FA93E358, 0xB7A4A79475F8BCBD, 0x9A634880AD17A35C, 0xAC32DAE044F4CEC0,
];

/// The key toggled when the side to move changes.
pub const MOVE_TOGGLE: u64 = 0x7D9CF3CB1FFCA478;

/// The key of a piece of a color on a square index (0 to 81).
pub open spec fn piece_key(color: Color, piece: Piece, sq: int) -> u64 {
    let k = color.idx() * 14 + piece.idx();
    if k == 0 {
        SQ_WHITE_PAWN[sq]
    } else if k == 1 {
        SQ_WHITE_LANCE[sq]
    } else if k == 2 {
        SQ_WHITE_KNIGHT[sq]
    } else if k == 3 {
        SQ_WHITE_SILVER[sq]
    } else if k == 4 {
        SQ_WHITE_BISHOP[sq]
    } else if k == 5 {
        SQ_WHITE_ROOK[sq]
    } else if k == 6 {
        SQ_WHITE_GOLD[sq]
    } else if k == 7 {
        SQ_WHITE_KING[sq]
    } else if k == 8 {
        SQ_WHITE_TOKIN[sq]
    } else if k == 9 {
        SQ_WHITE_PLANCE[sq]
    } else if k == 10 {
        SQ_WHITE_PKNIGHT[sq]
    } else if k == 11 {
        SQ_WHITE_PSILVER[sq]
    } else if k == 12 {
        SQ_WHITE_PBISHOP[sq]
    } else if k == 13 {
        SQ_WHITE_PROOK[sq]
    } else if k == 14 {
        SQ_BLACK_PAWN[sq]
    } else if k == 15 {
        SQ_BLACK_LANCE[sq]
    } else if k == 16 {
        SQ_BLACK_KNIGHT[sq]
    } else if k == 17 {
        SQ_BLACK_SILVER[sq]
    } else if k == 18 {
        SQ_BLACK_BISHOP[sq]
    } else if k == 19 {
        SQ_BLACK_ROOK[sq]
    } else if k == 20 {
        SQ_BLACK_GOLD[sq]
    } else if k == 21 {
        SQ_BLACK_KING[sq]
    } else if k == 22 {
        SQ_BLACK_TOKIN[sq]
    } else if k == 23 {
        SQ_BLACK_PLANCE[sq]
    } else if k == 24 {
        SQ_BLACK_PKNIGHT[sq]
    } else if k == 25 {
        SQ_BLACK_PSILVER[sq]
    } else if k == 26 {
        SQ_BLACK_PBISHOP[sq]
    } else if k == 27 {
        SQ_BLACK_PROOK[sq]
    } else {
        0
    }
}

/// The key of a count (0 to 19) of a piece in the hand of a color.
pub open spec fn hand_key(color: Color, piece: Piece, count: int) -> u64 {
    let k = color.idx() * 14 + piece.idx();
    if k == 0 {
        HAND_WHITE_PAWN[count]
    } else if k == 1 {
        HAND_WHITE_LANCE[count]
    } else if k == 2 {
        HAND_WHITE_KNIGHT[count]
    } else if k == 3 {
        HAND_WHITE_SILVER[count]
    } else if k == 4 {
        HAND_WHITE_BISHOP[count]
    } else if k == 5 {
        HAND_WHITE_ROOK[count]
    } else if k == 6 {
        HAND_WHITE_GOLD[count]
    } else if k == 7 {
        HAND_WHITE_KING[count]
    } else if k == 8 {
        HAND_WHITE_TOKIN[count]
    } else if k == 9 {
        HAND_WHITE_PLANCE[count]
    } else if k == 10 {
        HAND_WHITE_PKNIGHT[count]
    } else if k == 11 {
        HAND_WHITE_PSILVER[count]
    } else if k == 12 {
        HAND_WHITE_PBISHOP[count]
    } else if k == 13 {
        HAND_WHITE_PROOK[count]
    } else if k == 14 {
        HAND_BLACK_PAWN[count]
    } else if k == 15 {
        HAND_BLACK_LANCE[count]
    } else if k == 16 {
        HAND_BLACK_KNIGHT[count]
    } else if k == 17 {
        HAND_BLACK_SILVER[count]
    } else if k == 18 {
        HAND_BLACK_BISHOP[count]
    } else if k == 19 {
        HAND_BLACK_ROOK[count]
    } else if k == 20 {
        HAND_BLACK_GOLD[count]
    } else if k == 21 {
        HAND_BLACK_KING[count]
    } else if k == 22 {
        HAND_BLACK_TOKIN[count]
    } else if k == 23 {
        HAND_BLACK_PLANCE[count]
    } else if k == 24 {
        HAND_BLACK_PKNIGHT[count]
    } else if k == 25 {
        HAND_BLACK_PSILVER[count]
    } else if k == 26 {
        HAND_BLACK_PBISHOP[count]
    } else if k == 27 {
        HAND_BLACK_PROOK[count]
    } else {
        0
    }
}

/// The key of a piece of a color on a square index.
fn piece_key_of(color: Color, piece: Piece, sq: usize) -> (r: u64)
    requires
        sq < 82,
    ensures
        r == piece_key(color, piece, sq as int),
{
    let i = sq;
    match color.index() * 14 + piece.index() {
        0 => SQ_WHITE_PAWN[i],
        1 => SQ_WHITE_LANCE[i],
        2 => SQ_WHITE_KNIGHT[i],
        3 => SQ_WHITE_SILVER[i],
        4 => SQ_WHITE_BISHOP[i],
        5 => SQ_WHITE_ROOK[i],
        6 => SQ_WHITE_GOLD[i],
        7 => SQ_WHITE_KING[i],
        8 => SQ_WHITE_TOKIN[i],
        9 => SQ_WHITE_PLANCE[i],
        10 => SQ_WHITE_PKNIGHT[i],
        11 => SQ_WHITE_PSILVER[i],
        12 => SQ_WHITE_PBISHOP[i],
        13 => SQ_WHITE_PROOK[i],
        14 => SQ_BLACK_PAWN[i],
        15 => SQ_BLACK_LANCE[i],
        16 => SQ_BLACK_KNIGHT[i],
        17 => SQ_BLACK_SILVER[i],
        18 => SQ_BLACK_BISHOP[i],
        19 => SQ_BLACK_ROOK[i],
        20 => SQ_BLACK_GOLD[i],
        21 => SQ_BLACK_KING[i],
        22 => SQ_BLACK_TOKIN[i],
        23 => SQ_BLACK_PLANCE[i],
        24 => SQ_BLACK_PKNIGHT[i],
        25 => SQ_BLACK_PSILVER[i],
        26 => SQ_BLACK_PBISHOP[i],
        27 => SQ_BLACK_PROOK[i],
        _ => 0,
    }
}

/// The key of a count of a piece in the hand of a color.
fn hand_key_of(color: Color, piece: Piece, count: usize) -> (r: u64)
    requires
        count < 20,
    ensures
        r == hand_key(color, piece, count as int),
{
    let i = count;
    match color.index() * 14 + piece.index() {
        0 => HAND_WHITE_PAWN[i],
        1 => HAND_WHITE_LANCE[i],
        2 => HAND_WHITE_KNIGHT[i],
        3 => HAND_WHITE_SILVER[i],
        4 => HAND_WHITE_BISHOP[i],
        5 => HAND_WHITE_ROOK[i],
        6 => HAND_WHITE_GOLD[i],
        7 => HAND_WHITE_KING[i],
        8 => HAND_WHITE_TOKIN[i],
        9 => HAND_WHITE_PLANCE[i],
        10 => HAND_WHITE_PKNIGHT[i],
        11 => HAND_WHITE_PSILVER[i],
        12 => HAND_WHITE_PBISHOP[i],
        13 => HAND_WHITE_PROOK[i],
        14 => HAND_BLACK_PAWN[i],
        15 => HAND_BLACK_LANCE[i],
        16 => HAND_BLACK_KNIGHT[i],
        17 => HAND_BLACK_SILVER[i],
        18 => HAND_BLACK_BISHOP[i],
        19 => HAND_BLACK_ROOK[i],
        20 => HAND_BLACK_GOLD[i],
        21 => HAND_BLACK_KING[i],
        22 => HAND_BLACK_TOKIN[i],
        23 => HAND_BLACK_PLANCE[i],
        24 => HAND_BLACK_PKNIGHT[i],
        25 => HAND_BLACK_PSILVER[i],
        26 => HAND_BLACK_PBISHOP[i],
        27 => HAND_BLACK_PROOK[i],
        _ => 0,
    }
}

/// The XOR of `f(0)`, ..., `f(n - 1)`.
pub open spec fn xor_fold(f: spec_fn(int) -> u64, n: int) -> u64
    decreases n,
{
    if n <= 0 {
        0
    } else {
        xor_fold(f, n - 1) ^ f(n - 1)
    }
}

/// XOR is associative and commutative, with zero as identity and every value its own inverse.
proof fn lemma_xor_laws(a: u64, b: u64, c: u64)
    by (bit_vector)
    ensures
        (a ^ b) ^ c == a ^ (b ^ c),
        a ^ b == b ^ a,
        a ^ 0 == a,
        a ^ a == 0,
{
}

/// Regrouping the XOR of the three hash parts with one more key.
proof fn lemma_xor_regroup(s: u64, h: u64, t: u64, k: u64)
    by (bit_vector)
    ensures
        ((s ^ h) ^ t) ^ k == ((s ^ k) ^ h) ^ t,
        ((s ^ h) ^ t) ^ k == (s ^ (h ^ k)) ^ t,
        ((s ^ h) ^ t) ^ k == (s ^ h) ^ (t ^ k),
{
}

/// Folds of functions that agree below `n` are equal.
proof fn lemma_fold_ext(f: spec_fn(int) -> u64, g: spec_fn(int) -> u64, n: int)
    requires
        forall|i: int| 0 <= i < n ==> #[trigger] f(i) == g(i),
    ensures
        xor_fold(f, n) == xor_fold(g, n),
    decreases n,
{
    if n > 0 {
        lemma_fold_ext(f, g, n - 1);
    }
}

/// Changing one term of a fold changes the fold by the XOR of the old and the new term.
proof fn lemma_fold_update(f: spec_fn(int) -> u64, g: spec_fn(int) -> u64, n: int, j: int)
    requires
        0 <= j < n,
        forall|i: int| 0 <= i < n && i != j ==> #[trigger] f(i) == g(i),
    ensures
        xor_fold(g, n) == xor_fold(f, n) ^ (f(j) ^ g(j)),
    decreases n,
{
    let a = xor_fold(f, n - 1);
    if j == n - 1 {
        lemma_fold_ext(f, g, n - 1);
        lemma_xor_laws(a, f(j), f(j) ^ g(j));
        lemma_xor_laws(f(j), f(j), g(j));
        lemma_xor_laws(g(j), 0, 0);
        lemma_xor_laws(f(j) ^ f(j), g(j), 0);
    } else {
        lemma_fold_update(f, g, n - 1, j);
        let d = f(j) ^ g(j);
        lemma_xor_laws(a, d, f(n - 1));
        lemma_xor_laws(a, f(n - 1), d);
        lemma_xor_laws(d, f(n - 1), 0);
    }
}

/// A fold of zeros is zero.
proof fn lemma_fold_zero(f: spec_fn(int) -> u64, n: int)
    requires
        forall|i: int| 0 <= i < n ==> #[trigger] f(i) == 0,
    ensures
        xor_fold(f, n) == 0,
    decreases n,
{
    if n > 0 {
        lemma_fold_zero(f, n - 1);
        lemma_xor_laws(0, 0, 0);
    }
}

/// How two positions with the same pieces on the board compare.
#[derive(Debug, Clone, Copy, PartialEq, Eq, Structural)]
pub enum Dominance {
    /// The boards differ, or neither hand holds at least as much of every piece.
    Incomparable,
    /// The positions are identical.
    Equal,
    /// Board and hands are identical but the side to move differs.
    Sente,
    /// The boards are equal, the hands are not, and the side to move here holds at least as
    /// much of every piece as in the other position.
    Dominates,
    /// The boards are equal, the hands are not, and the side to move here holds at most as
    /// much of every piece as in the other position (and not always at least as much).
    DominatedBy,
}

/// Gold generals and all promoted pieces: the pieces kept together in the extra bitboard.
pub open spec fn gold_like(p: Piece) -> bool {
    p == Piece::Gold || p.idx() >= 8
}

/// A position: piece and color bitboards, hands, side to move and the incrementally
/// updated Zobrist hash.
#[derive(Debug, Clone, Copy, PartialEq, Eq, Hash)]
pub struct ZobristBoard {
    pieces: [BitBoard; 15],
    colors: [BitBoard; 2],
    hands: [[u8; 14]; 2],
    side_to_move: Color,
    hash: u64,
}

impl ZobristBoard {
    /// The squares holding `p`, of either color.
    pub closed spec fn piece_bb(self, p: Piece) -> u128 {
        self.pieces[p.idx()].0
    }

    /// The squares holding a gold general or a promoted piece.
    pub closed spec fn golds_bb(self) -> u128 {
        self.pieces[14].0
    }

    /// The squares holding a piece of `c`.
    pub closed spec fn color_bb(self, c: Color) -> u128 {
        self.colors[c.idx()].0
    }

    /// How many `p` side `c` holds in hand.
    pub closed spec fn hand_count(self, c: Color, p: Piece) -> u8 {
        self.hands[c.idx()][p.idx()]
    }

    /// The side to move.
    pub closed spec fn stm(self) -> Color {
        self.side_to_move
    }

    /// The stored hash.
    pub closed spec fn hash_value(self) -> u64 {
        self.hash
    }

    /// The piece on square index `i`, if any.
    pub open spec fn piece_at(self, i: int) -> Option<Piece> {
        if bit(self.piece_bb(Piece::Pawn), i) {
            Some(Piece::Pawn)
        } else if bit(self.piece_bb(Piece::Lance), i) {
            Some(Piece::Lance)
        } else if bit(self.piece_bb(Piece::Knight), i) {
            Some(Piece::Knight)
        } else if bit(self.piece_bb(Piece::Silver), i) {
            Some(Piece::Silver)
        } else if bit(self.piece_bb(Piece::Bishop), i) {
            Some(Piece::Bishop)
        } else if bit(self.piece_bb(Piece::Rook), i) {
            Some(Piece::Rook)
        } else if bit(self.piece_bb(Piece::Gold), i) {
            Some(Piece::Gold)
        } else if bit(self.piece_bb(Piece::King), i) {
            Some(Piece::King)
        } else if bit(self.piece_bb(Piece::Tokin), i) {
            Some(Piece::Tokin)
        } else if bit(self.piece_bb(Piece::PLance), i) {
            Some(Piece::PLance)
        } else if bit(self.piece_bb(Piece::PKnight), i) {
            Some(Piece::PKnight)
        } else if bit(self.piece_bb(Piece::PSilver), i) {
            Some(Piece::PSilver)
        } else if bit(self.piece_bb(Piece::PBishop), i) {
            Some(Piece::PBishop)
        } else if bit(self.piece_bb(Piece::PRook), i) {
            Some(Piece::PRook)
        } else {
            None
        }
    }

    /// The color of the piece on square index `i`, if any.
    pub open spec fn color_at(self, i: int) -> Option<Color> {
        if bit(self.color_bb(Color::White), i) {
            Some(Color::White)
        } else if bit(self.color_bb(Color::Black), i) {
            Some(Color::Black)
        } else {
            None
        }
    }

    /// The bitboards describe a position: every square holds at most one piece, the pieces
    /// and the colors cover the same squares, the gold bitboard matches, and hand counts
    /// stay below 20.
    pub open spec fn wf_shape(self) -> bool {
        &&& forall|p: Piece| #[trigger] self.piece_bb(p) <= BOARD_MASK
        &&& self.golds_bb() <= BOARD_MASK
        &&& forall|c: Color| #[trigger] self.color_bb(c) <= BOARD_MASK
        &&& forall|p: Piece, i: int| #[trigger] bit(self.piece_bb(p), i) ==> self.piece_at(i) == Some(p)
        &&& forall|i: int| #![trigger self.piece_at(i)] #![trigger self.color_at(i)] (self.piece_at(i) is Some) == (self.color_at(i) is Some)
        &&& forall|i: int| !(bit(self.color_bb(Color::White), i) && bit(self.color_bb(Color::Black), i))
        &&& forall|i: int| #[trigger] bit(self.golds_bb(), i) == (self.piece_at(i) matches Some(p) && gold_like(p))
        &&& forall|c: Color, p: Piece| #[trigger] self.hand_count(c, p) < 20
    }

    /// A well-formed position: [`Self::wf_shape`], and the stored hash is the Zobrist hash of
    /// the position.
    pub open spec fn wf(self) -> bool {
        &&& self.wf_shape()
        &&& self.hash_value() == self.zobrist()
    }

    /// The key square index `i` adds to the hash: that of the piece on it, zero when empty.
    pub open spec fn square_key(self, i: int) -> u64 {
        match (self.piece_at(i), self.color_at(i)) {
            (Some(p), Some(c)) => piece_key(c, p, i),
            _ => 0,
        }
    }

    /// The key hand slot `k` adds to the hash: slot `14 * c + p` holds the count of piece `p`
    /// in the hand of color `c`, and an empty slot adds zero.
    pub open spec fn hand_slot_key(self, k: int) -> u64 {
        let c = Color::from_idx(k / 14);
        let p = Piece::from_idx(k % 14);
        hand_key(c, p, self.hand_count(c, p) as int) ^ hand_key(c, p, 0)
    }

    /// The Zobrist hash of the position: the keys of the occupied squares, of the hand
    /// counts, and the side-to-move key when White is to move.
    pub open spec fn zobrist(self) -> u64 {
        xor_fold(|i: int| self.square_key(i), 81) ^ xor_fold(|k: int| self.hand_slot_key(k), 28) ^ (
        if self.stm() == Color::White {
            MOVE_TOGGLE
        } else {
            0
        })
    }

    /// The two values hold the same position: the same pieces on the same squares, the same
    /// hands and the same side to move.
    pub open spec fn same_position(self, other: ZobristBoard) -> bool {
        &&& self.stm() == other.stm()
        &&& forall|i: int| #[trigger] self.piece_at(i) == other.piece_at(i)
        &&& forall|i: int| #[trigger] self.color_at(i) == other.color_at(i)
        &&& forall|c: Color, p: Piece| #[trigger] self.hand_count(c, p) == other.hand_count(c, p)
    }

    /// Every hand count of `color` here is at least (`ge`) or at most (`!ge`) the one in `other`.
    pub open spec fn hand_bound(self, other: ZobristBoard, color: Color, ge: bool) -> bool {
        forall|p: Piece| #[trigger] self.hand_count(color, p) >= other.hand_count(color, p) && ge
            || self.hand_count(color, p) <= other.hand_count(color, p) && !ge
    }

    /// How this position compares with `other` (see [`Dominance`]).
    pub open spec fn dominance(self, other: ZobristBoard) -> Dominance {
        let board_equal = (forall|i: int| #[trigger] self.piece_at(i) == other.piece_at(i)) && (forall|i: int|
            #[trigger] self.color_at(i) == other.color_at(i));
        let hands_equal = forall|c: Color, p: Piece| #[trigger] self.hand_count(c, p) == other.hand_count(c, p);
        let j = self.stm();
        if !board_equal {
            Dominance::Incomparable
        } else if hands_equal {
            if self.stm() == other.stm() {
                Dominance::Equal
            } else {
                Dominance::Sente
            }
        } else if self.hand_bound(other, j, true) {
            Dominance::Dominates
        } else if self.hand_bound(other, j, false) {
            Dominance::DominatedBy
        } else {
            Dominance::Incomparable
        }
    }

    /// An empty board with empty hands and Black to move.
    pub fn empty() -> (r: ZobristBoard)
        ensures
            r.wf(),
            forall|i: int| r.piece_at(i) is None,
            forall|i: int| r.color_at(i) is None,
            forall|c: Color, p: Piece| #[trigger] r.hand_count(c, p) == 0,
            r.stm() == Color::Black,
            r.hash_value() == 0,
    {
        let r = ZobristBoard {
            pieces: [BitBoard(0); 15],
            colors: [BitBoard(0); 2],
            hands: [[0; 14]; 2],
            side_to_move: Color::Black,
            hash: 0,
        };
        proof {
            assert forall|p: Piece| #[trigger] r.piece_bb(p) == 0 by {
                lemma_piece_idx(p);
            }
            assert forall|c: Color| #[trigger] r.color_bb(c) == 0 by {
                lemma_color_idx(c);
            }
            assert forall|c: Color, p: Piece| #[trigger] r.hand_count(c, p) == 0 by {
                lemma_piece_idx(p);
                lemma_color_idx(c);
            }
            assert forall|i: int| 0 <= i < 81 implies r.square_key(i) == 0 by {}
            lemma_fold_zero(|i: int| r.square_key(i), 81);
            assert forall|k: int| 0 <= k < 28 implies r.hand_slot_key(k) == 0 by {
                let c = Color::from_idx(k / 14);
                let p = Piece::from_idx(k % 14);
                assert(r.hand_count(c, p) == 0);
                lemma_xor_laws(hand_key(c, p, 0), 0, 0);
            }
            lemma_fold_zero(|k: int| r.hand_slot_key(k), 28);
            lemma_xor_laws(0, 0, 0);
        }
        r
    }

    /// The squares holding `piece`, of either color.
    pub fn pieces(&self, piece: Piece) -> (r: BitBoard)
        ensures
            r.0 == self.piece_bb(piece),
    {
        self.pieces[piece.index()]
    }

    /// The squares holding a gold general or a promoted piece.
    pub fn golds_and_promoted_pieces(&self) -> (r: BitBoard)
        ensures
            r.0 == self.golds_bb(),
    {
        self.pieces[14]
    }

    /// The squares holding a piece of `color`.
    pub fn colors(&self, color: Color) -> (r: BitBoard)
        ensures
            r.0 == self.color_bb(color),
    {
        self.colors[color.index()]
    }

    /// The side to move.
    pub fn side_to_move(&self) -> (r: Color)
        ensures
            r == self.stm(),
    {
        self.side_to_move
    }

    /// The hand of `color`: the count of each piece type.
    pub fn hand(&self, color: Color) -> (r: &[u8; 14])
        ensures
            forall|p: Piece| #[trigger] r[p.idx()] == self.hand_count(color, p),
    {
        &self.hands[color.index()]
    }

    /// Both hands, White's first.
    pub fn hands(&self) -> (r: &[[u8; 14]; 2])
        ensures
            forall|c: Color, p: Piece| #[trigger] r[c.idx()][p.idx()] == self.hand_count(c, p),
    {
        &self.hands
    }

    /// How many `piece` side `color` holds in hand.
    pub fn num_in_hand(&self, color: Color, piece: Piece) -> (r: u8)
        ensures
            r == self.hand_count(color, piece),
    {
        self.hands[color.index()][piece.index()]
    }

    /// The stored hash.
    pub fn hash(&self) -> (r: u64)
        ensures
            r == self.hash_value(),
    {
        self.hash
    }

    /// Does `color` hold no piece in hand?
    pub fn is_hand_empty(&self, color: Color) -> (r: bool)
        ensures
            r == forall|p: Piece| #[trigger] self.hand_count(color, p) == 0,
    {
        let hand = self.hand(color);
        let mut i: usize = 0;
        while i < 14
            invariant
                i <= 14,
                forall|p: Piece| #[trigger] hand[p.idx()] == self.hand_count(color, p),
                forall|p: Piece| p.idx() < i ==> #[trigger] self.hand_count(color, p) == 0,
            decreases 14 - i,
        {
            if hand[i] != 0 {
                proof {
                    assert(hand[Piece::from_idx(i as int).idx()] != 0);
                }
                return false;
            }
            proof {
                assert(Piece::from_idx(i as int).idx() == i);
            }
            i += 1;
        }
        true
    }

    /// Do the two values hold the same pieces on the same squares?
    fn same_board(&self, other: &Self) -> (r: bool)
        requires
            self.wf(),
            other.wf(),
        ensures
            r == ((forall|i: int| #[trigger] self.piece_at(i) == other.piece_at(i)) && (forall|i: int|
                #[trigger] self.color_at(i) == other.color_at(i))),
    {
        let mut eq = true;
        let mut i: usize = 0;
        while i < 15
            invariant
                i <= 15,
                eq == forall|k: int| 0 <= k < i ==> #[trigger] self.pieces[k] == other.pieces[k],
            decreases 15 - i,
        {
            eq = eq && self.pieces[i] == other.pieces[i];
            i += 1;
        }
        let mut c: usize = 0;
        while c < 2
            invariant
                c <= 2,
                eq == ((forall|k: int| 0 <= k < 15 ==> #[trigger] self.pieces[k] == other.pieces[k]) && (forall|k: int|
                    0 <= k < c ==> #[trigger] self.colors[k] == other.colors[k])),
            decreases 2 - c,
        {
            eq = eq && self.colors[c] == other.colors[c];
            c += 1;
        }
        proof {
            lemma_same_board(*self, *other, eq);
        }
        eq
    }

    /// Do the two values hold the same hands?
    fn same_hands(&self, other: &Self) -> (r: bool)
        ensures
            r == forall|c: Color, p: Piece| #[trigger] self.hand_count(c, p) == other.hand_count(c, p),
    {
        let a = self.hand(Color::White);
        let b = other.hand(Color::White);
        let x = self.hand(Color::Black);
        let y = other.hand(Color::Black);
        let mut eq = true;
        let mut q: usize = 0;
        while q < 14
            invariant
                q <= 14,
                forall|p: Piece| #[trigger] a[p.idx()] == self.hand_count(Color::White, p),
                forall|p: Piece| #[trigger] b[p.idx()] == other.hand_count(Color::White, p),
                forall|p: Piece| #[trigger] x[p.idx()] == self.hand_count(Color::Black, p),
                forall|p: Piece| #[trigger] y[p.idx()] == other.hand_count(Color::Black, p),
                eq == forall|c: Color, p: Piece| p.idx() < q ==> #[trigger] self.hand_count(c, p) == other.hand_count(c, p),
            decreases 14 - q,
        {
            let p = Piece::index_const(q);
            proof {
                assert forall|c: Color, p2: Piece| p2.idx() < q + 1 implies (#[trigger] self.hand_count(c, p2)
                    == other.hand_count(c, p2)) == ((p2.idx() < q ==> self.hand_count(c, p2) == other.hand_count(c, p2))
                    && (p2.idx() == q ==> self.hand_count(c, p2) == other.hand_count(c, p2))) by {}
            }
            let here = a[q] == b[q] && x[q] == y[q];
            proof {
                assert(here == (self.hand_count(Color::White, p) == other.hand_count(Color::White, p)
                    && self.hand_count(Color::Black, p) == other.hand_count(Color::Black, p)));
                if !here {
                    if a[q as int] != b[q as int] {
                        assert(!(self.hand_count(Color::White, p) == other.hand_count(Color::White, p)));
                    } else {
                        assert(!(self.hand_count(Color::Black, p) == other.hand_count(Color::Black, p)));
                    }
                }
                if eq && here {
                    assert forall|c: Color, p2: Piece| p2.idx() < q + 1 implies #[trigger] self.hand_count(c, p2)
                        == other.hand_count(c, p2) by {
                        if p2.idx() == q {
                            assert(p2 == p);
                        }
                    }
                }
            }
            eq = eq && here;
            q += 1;
        }
        eq
    }

    /// Does every hand count of `color` here stand at least (`ge`) or at most (`!ge`) at
    /// the one in `other`?
    fn hand_cmp(&self, other: &Self, color: Color, ge: bool) -> (r: bool)
        ensures
            r == self.hand_bound(*other, color, ge),
    {
        let a = self.hand(color);
        let b = other.hand(color);
        let mut q: usize = 0;
        while q < 14
            invariant
                q <= 14,
                forall|p: Piece| #[trigger] a[p.idx()] == self.hand_count(color, p),
                forall|p: Piece| #[trigger] b[p.idx()] == other.hand_count(color, p),
                forall|p: Piece| p.idx() < q ==> #[trigger] self.hand_count(color, p) >= other.hand_count(color, p)
                    && ge || self.hand_count(color, p) <= other.hand_count(color, p) && !ge,
            decreases 14 - q,
        {
            let p = Piece::index_const(q);
            let ok = if ge {
                a[q] >= b[q]
            } else {
                a[q] <= b[q]
            };
            if !ok {
                proof {
                    assert(!(self.hand_count(color, p) >= other.hand_count(color, p) && ge
                        || self.hand_count(color, p) <= other.hand_count(color, p) && !ge));
                }
                return false;
            }
            q += 1;
        }
        true
    }

    /// Do the two values hold the same position (see [`Self::same_position`])?
    pub fn board_is_equal(&self, other: &Self) -> (r: bool)
        requires
            self.wf(),
            other.wf(),
        ensures
            r == self.same_position(*other),
    {
        self.side_to_move == other.side_to_move && self.same_board(other) && self.same_hands(other)
    }

    /// How this position compares with `other`: whether the boards are equal, and if so
    /// whether the side to move here holds at least (or at most) as much of every piece in
    /// hand as in `other`.
    pub fn dominates(&self, other: &Self) -> (r: Dominance)
        requires
            self.wf(),
            other.wf(),
        ensures
            r == self.dominance(*other),
    {
        if !self.same_board(other) {
            Dominance::Incomparable
        } else if self.same_hands(other) {
            if self.side_to_move == other.side_to_move {
                Dominance::Equal
            } else {
                Dominance::Sente
            }
        } else if self.hand_cmp(other, self.side_to_move, true) {
            Dominance::Dominates
        } else if self.hand_cmp(other, self.side_to_move, false) {
            Dominance::DominatedBy
        } else {
            Dominance::Incomparable
        }
    }

    /// `post` is this value with `piece` of `color` put on square index `si` when it is
    /// empty, or lifted off it when it stands there; nothing else changes.
    pub open spec fn toggled(self, post: ZobristBoard, piece: Piece, color: Color, si: int) -> bool {
        &&& post.wf()
        &&& post.stm() == self.stm()
        &&& forall|c: Color, p: Piece| #[trigger] post.hand_count(c, p) == self.hand_count(c, p)
        &&& forall|i: int| i != si ==> #[trigger] post.piece_at(i) == self.piece_at(i)
        &&& forall|i: int| i != si ==> #[trigger] post.color_at(i) == self.color_at(i)
        &&& self.piece_at(si) is None ==> post.piece_at(si) == Some(piece) && post.color_at(si) == Some(color)
        &&& self.piece_at(si) is Some ==> post.piece_at(si) is None && post.color_at(si) is None
    }

    /// `post` is this value with the count of `piece` in the hand of `color` changed by
    /// `delta`; nothing else changes.
    pub open spec fn hand_moved(self, post: ZobristBoard, color: Color, piece: Piece, delta: int) -> bool {
        &&& post.wf()
        &&& post.stm() == self.stm()
        &&& forall|i: int| #[trigger] post.piece_at(i) == self.piece_at(i)
        &&& forall|i: int| #[trigger] post.color_at(i) == self.color_at(i)
        &&& forall|c: Color, p: Piece| #[trigger] post.hand_count(c, p) == (if c == color && p == piece {
            (self.hand_count(c, p) + delta) as u8
        } else {
            self.hand_count(c, p)
        })
    }

    /// Put `piece` of `color` on `square` when the square is empty, or lift it off when it
    /// stands there, and update the hash by the key of that piece on that square.
    pub fn xor_square(&mut self, piece: Piece, color: Color, square: Square)
        requires
            old(self).wf(),
            old(self).piece_at(square.idx()) is None || (old(self).piece_at(square.idx()) == Some(
                piece,
            ) && old(self).color_at(square.idx()) == Some(color)),
        ensures
            old(self).toggled(*final(self), piece, color, square.idx()),
    {
        let ghost pre = *self;
        let sq_bb = square.bitboard();
        let pi = piece.index();
        let ci = color.index();
        proof {
            lemma_square_idx(square);
            lemma_color_idx(color);
        }
        self.pieces[pi] = self.pieces[pi].bitxor(sq_bb);
        self.colors[ci] = self.colors[ci].bitxor(sq_bb);
        if pi > 7 || pi == 6 {
            self.pieces[14] = self.pieces[14].bitxor(sq_bb);
        }
        let key = piece_key_of(color, piece, square.index());
        self.hash = self.hash ^ key;
        proof {
            let post = *self;
            let si = square.idx();
            assert forall|p: Piece, i: int| #[trigger] bit(post.piece_bb(p), i) == (if i == si && p == piece {
                !bit(pre.piece_bb(p), i)
            } else {
                bit(pre.piece_bb(p), i)
            }) by {}
            assert forall|c: Color, i: int| #[trigger] bit(post.color_bb(c), i) == (if i == si && c == color {
                !bit(pre.color_bb(c), i)
            } else {
                bit(pre.color_bb(c), i)
            }) by {}
            assert forall|i: int| #[trigger] bit(post.golds_bb(), i) == (if i == si && gold_like(piece) {
                !bit(pre.golds_bb(), i)
            } else {
                bit(pre.golds_bb(), i)
            }) by {}
            assert forall|p: Piece| #[trigger] post.piece_bb(p) <= BOARD_MASK by {}
            assert forall|c: Color| #[trigger] post.color_bb(c) <= BOARD_MASK by {}
            assert forall|c: Color, p: Piece| #[trigger] post.hand_count(c, p) == pre.hand_count(c, p) by {}
            lemma_toggle_square(pre, post, piece, color, si);
            lemma_toggle_square_hash(pre, post, piece, color, si);
        }
    }

    /// Set the count of `piece` in the hand of `color`, updating the hash.
    fn set_hand_count(&mut self, color: Color, piece: Piece, count: u8)
        requires
            old(self).wf(),
            count < 20,
        ensures
            final(self).wf(),
            final(self).stm() == old(self).stm(),
            forall|i: int| #[trigger] final(self).piece_at(i) == old(self).piece_at(i),
            forall|i: int| #[trigger] final(self).color_at(i) == old(self).color_at(i),
            forall|c: Color, p: Piece| #[trigger] final(self).hand_count(c, p) == (if c == color && p == piece {
                count
            } else {
                old(self).hand_count(c, p)
            }),
    {
        let ghost pre = *self;
        let ci = color.index();
        let pi = piece.index();
        let old_count = self.hands[ci][pi];
        proof {
            lemma_color_idx(color);
            assert(old_count == pre.hand_count(color, piece));
        }
        let k_old = hand_key_of(color, piece, old_count as usize);
        let k_new = hand_key_of(color, piece, count as usize);
        self.hands[ci][pi] = count;
        self.hash = self.hash ^ (k_old ^ k_new);
        proof {
            let post = *self;
            assert forall|c: Color, p: Piece| #[trigger] post.hand_count(c, p) == (if c == color && p == piece {
                count
            } else {
                pre.hand_count(c, p)
            }) by {
                lemma_color_idx(c);
            }
            assert forall|p: Piece| #[trigger] post.piece_bb(p) == pre.piece_bb(p) by {}
            assert forall|c: Color| #[trigger] post.color_bb(c) == pre.color_bb(c) by {}
            assert(post.golds_bb() == pre.golds_bb());
            assert forall|i: int| #[trigger] post.piece_at(i) == pre.piece_at(i) by {}
            assert forall|i: int| #[trigger] post.color_at(i) == pre.color_at(i) by {}
            let f = |i: int| pre.square_key(i);
            let g = |i: int| post.square_key(i);
            assert forall|i: int| 0 <= i < 81 implies #[trigger] f(i) == g(i) by {}
            lemma_fold_ext(f, g, 81);
            let j = 14 * color.idx() + piece.idx();
            let hf = |k: int| pre.hand_slot_key(k);
            let hg = |k: int| post.hand_slot_key(k);
            assert(Color::from_idx(j / 14) == color && Piece::from_idx(j % 14) == piece);
            assert forall|k: int| 0 <= k < 28 && k != j implies #[trigger] hf(k) == hg(k) by {
                let c = Color::from_idx(k / 14);
                let p = Piece::from_idx(k % 14);
                assert(c.idx() == k / 14 && p.idx() == k % 14);
                assert(!(c == color && p == piece));
            }
            lemma_fold_update(hf, hg, 28, j);
            let z = hand_key(color, piece, 0);
            assert(hf(j) ^ hg(j) == k_old ^ k_new) by {
                lemma_xor_laws(k_old, z, k_new ^ z);
                lemma_xor_laws(z, k_new, z);
                lemma_xor_laws(k_new, z, z);
                lemma_xor_laws(z, z, 0);
                lemma_xor_laws(k_new, 0, 0);
            }
            lemma_xor_regroup(xor_fold(f, 81), xor_fold(hf, 28), if pre.stm() == Color::White {
                MOVE_TOGGLE
            } else {
                0
            }, k_old ^ k_new);
        }
    }

    /// Set the count of `piece` in the hand of `color`; the count is not checked against the
    /// pieces in play.
    pub fn unchecked_set_hand(&mut self, color: Color, piece: Piece, count: u8)
        requires
            old(self).wf(),
            count < 20,
        ensures
            final(self).wf(),
            final(self).stm() == old(self).stm(),
            forall|i: int| #[trigger] final(self).piece_at(i) == old(self).piece_at(i),
            forall|i: int| #[trigger] final(self).color_at(i) == old(self).color_at(i),
            forall|c: Color, p: Piece| #[trigger] final(self).hand_count(c, p) == (if c == color && p == piece {
                count
            } else {
                old(self).hand_count(c, p)
            }),
    {
        self.set_hand_count(color, piece, count);
    }

    /// Put one more of the unpromoted form of `piece` in the hand of `color`.
    pub fn take_in_hand(&mut self, color: Color, piece: Piece)
        requires
            old(self).wf(),
            old(self).hand_count(color, unpromoted(piece)) + 1 < 20,
        ensures
            old(self).hand_moved(*final(self), color, unpromoted(piece), 1),
    {
        let piece = piece.unpromote();
        let count = self.num_in_hand(color, piece);
        self.set_hand_count(color, piece, count + 1);
    }

    /// Take one of the unpromoted form of `piece` out of the hand of `color`.
    pub fn take_from_hand(&mut self, color: Color, piece: Piece)
        requires
            old(self).wf(),
            old(self).hand_count(color, unpromoted(piece)) > 0,
        ensures
            old(self).hand_moved(*final(self), color, unpromoted(piece), -1),
    {
        let piece = piece.unpromote();
        let count = self.num_in_hand(color, piece);
        self.set_hand_count(color, piece, count - 1);
    }

    /// Pass the move to the other side, updating the hash.
    pub fn toggle_side_to_move(&mut self)
        requires
            old(self).wf(),
        ensures
            final(self).wf(),
            final(self).stm() == old(self).stm().other(),
            forall|i: int| #[trigger] final(self).piece_at(i) == old(self).piece_at(i),
            forall|i: int| #[trigger] final(self).color_at(i) == old(self).color_at(i),
            forall|c: Color, p: Piece| #[trigger] final(self).hand_count(c, p) == old(self).hand_count(c, p),
    {
        let ghost pre = *self;
        self.side_to_move = match self.side_to_move {
            Color::White => Color::Black,
            Color::Black => Color::White,
        };
        self.hash = self.hash ^ MOVE_TOGGLE;
        proof {
            let post = *self;
            assert forall|p: Piece| #[trigger] post.piece_bb(p) == pre.piece_bb(p) by {}
            assert forall|c: Color| #[trigger] post.color_bb(c) == pre.color_bb(c) by {}
            assert(post.golds_bb() == pre.golds_bb());
            assert forall|c: Color, p: Piece| #[trigger] post.hand_count(c, p) == pre.hand_count(c, p) by {}
            assert forall|i: int| #[trigger] post.piece_at(i) == pre.piece_at(i) by {}
            assert forall|i: int| #[trigger] post.color_at(i) == pre.color_at(i) by {}
            let f = |i: int| pre.square_key(i);
            let g = |i: int| post.square_key(i);
            assert forall|i: int| 0 <= i < 81 implies #[trigger] f(i) == g(i) by {}
            lemma_fold_ext(f, g, 81);
            let hf = |k: int| pre.hand_slot_key(k);
            let hg = |k: int| post.hand_slot_key(k);
            assert forall|k: int| 0 <= k < 28 implies #[trigger] hf(k) == hg(k) by {}
            lemma_fold_ext(hf, hg, 28);
            assert(post.wf_shape());
            let t = if pre.stm() == Color::White {
                MOVE_TOGGLE
            } else {
                0
            };
            lemma_xor_regroup(xor_fold(f, 81), xor_fold(hf, 28), t, MOVE_TOGGLE);
            lemma_xor_laws(MOVE_TOGGLE, 0, 0);
            lemma_xor_laws(0, MOVE_TOGGLE, 0);
        }
    }
}


/// The shape of a position after toggling `piece` of `color` on square index `si`, which was
/// empty or held just that piece.
proof fn lemma_toggle_square(pre: ZobristBoard, post: ZobristBoard, piece: Piece, color: Color, si: int)
    requires
        pre.wf_shape(),
        0 <= si < 81,
        pre.piece_at(si) is None || (pre.piece_at(si) == Some(piece) && pre.color_at(si) == Some(color)),
        forall|p: Piece, i: int| #[trigger] bit(post.piece_bb(p), i) == (if i == si && p == piece {
            !bit(pre.piece_bb(p), i)
        } else {
            bit(pre.piece_bb(p), i)
        }),
        forall|c: Color, i: int| #[trigger] bit(post.color_bb(c), i) == (if i == si && c == color {
            !bit(pre.color_bb(c), i)
        } else {
            bit(pre.color_bb(c), i)
        }),
        forall|i: int| #[trigger] bit(post.golds_bb(), i) == (if i == si && gold_like(piece) {
            !bit(pre.golds_bb(), i)
        } else {
            bit(pre.golds_bb(), i)
        }),
        forall|p: Piece| #[trigger] post.piece_bb(p) <= BOARD_MASK,
        forall|c: Color| #[trigger] post.color_bb(c) <= BOARD_MASK,
        post.golds_bb() <= BOARD_MASK,
        forall|c: Color, p: Piece| #[trigger] post.hand_count(c, p) == pre.hand_count(c, p),
    ensures
        post.wf_shape(),
        forall|i: int| i != si ==> #[trigger] post.piece_at(i) == pre.piece_at(i),
        forall|i: int| i != si ==> #[trigger] post.color_at(i) == pre.color_at(i),
        pre.piece_at(si) is None ==> post.piece_at(si) == Some(piece) && post.color_at(si) == Some(color),
        pre.piece_at(si) is Some ==> post.piece_at(si) is None && post.color_at(si) is None,
{
    assert forall|i: int| i != si implies #[trigger] post.piece_at(i) == pre.piece_at(i) by {}
    assert forall|i: int| i != si implies #[trigger] post.color_at(i) == pre.color_at(i) by {}
    if pre.piece_at(si) is None {
        assert forall|p: Piece| !bit(pre.piece_bb(p), si) by {
            if bit(pre.piece_bb(p), si) {
                assert(pre.piece_at(si) == Some(p));
            }
        }
        assert(post.piece_at(si) == Some(piece));
        assert(pre.color_at(si) is None);
        assert(post.color_at(si) == Some(color));
    } else {
        assert forall|p: Piece| p != piece implies !bit(pre.piece_bb(p), si) by {
            if bit(pre.piece_bb(p), si) {
                assert(pre.piece_at(si) == Some(p));
            }
        }
        assert(bit(pre.piece_bb(piece), si));
        assert(post.piece_at(si) is None);
        assert(post.color_at(si) is None);
    }
    assert forall|p: Piece, i: int| #[trigger] bit(post.piece_bb(p), i) implies post.piece_at(i) == Some(p) by {
        if i != si {
            assert(bit(pre.piece_bb(p), i));
        }
    }
    assert forall|i: int| #[trigger] bit(post.golds_bb(), i) == (post.piece_at(i) matches Some(p) && gold_like(p)) by {
        if i != si {
            assert(bit(pre.golds_bb(), i) == (pre.piece_at(i) matches Some(p) && gold_like(p)));
        } else {
            assert(bit(pre.golds_bb(), i) == (pre.piece_at(i) matches Some(p) && gold_like(p)));
        }
    }
}

/// The hash after toggling `piece` of `color` on square index `si` changes by the key of
/// that piece on that square.
proof fn lemma_toggle_square_hash(pre: ZobristBoard, post: ZobristBoard, piece: Piece, color: Color, si: int)
    requires
        pre.wf(),
        post.wf_shape(),
        0 <= si < 81,
        post.stm() == pre.stm(),
        forall|c: Color, p: Piece| #[trigger] post.hand_count(c, p) == pre.hand_count(c, p),
        forall|i: int| i != si ==> #[trigger] post.piece_at(i) == pre.piece_at(i),
        forall|i: int| i != si ==> #[trigger] post.color_at(i) == pre.color_at(i),
        pre.piece_at(si) is None ==> post.piece_at(si) == Some(piece) && post.color_at(si) == Some(color),
        pre.piece_at(si) is Some ==> post.piece_at(si) is None && post.color_at(si) is None
            && pre.piece_at(si) == Some(piece) && pre.color_at(si) == Some(color),
        post.hash_value() == pre.hash_value() ^ piece_key(color, piece, si),
    ensures
        post.wf(),
{
    let key = piece_key(color, piece, si);
    let f = |i: int| pre.square_key(i);
    let g = |i: int| post.square_key(i);
    assert forall|i: int| 0 <= i < 81 && i != si implies #[trigger] f(i) == g(i) by {}
    lemma_fold_update(f, g, 81, si);
    assert(f(si) ^ g(si) == key) by {
        lemma_xor_laws(key, 0, 0);
        lemma_xor_laws(0, key, 0);
    }
    let hf = |k: int| pre.hand_slot_key(k);
    let hg = |k: int| post.hand_slot_key(k);
    assert forall|k: int| 0 <= k < 28 implies #[trigger] hf(k) == hg(k) by {}
    lemma_fold_ext(hf, hg, 28);
    lemma_xor_regroup(xor_fold(f, 81), xor_fold(hf, 28), if pre.stm() == Color::White {
        MOVE_TOGGLE
    } else {
        0
    }, key);
}


/// Under well-formedness the bitboards of two positions agree exactly when they hold the
/// same pieces on the same squares.
proof fn lemma_same_board(a: ZobristBoard, b: ZobristBoard, eq: bool)
    requires
        a.wf(),
        b.wf(),
        eq == ((forall|k: int| 0 <= k < 15 ==> #[trigger] a.pieces[k] == b.pieces[k]) && (forall|k: int|
            0 <= k < 2 ==> #[trigger] a.colors[k] == b.colors[k])),
    ensures
        eq == ((forall|i: int| #[trigger] a.piece_at(i) == b.piece_at(i)) && (forall|i: int|
            #[trigger] a.color_at(i) == b.color_at(i))),
{
    if eq {
        assert forall|p: Piece| #[trigger] a.piece_bb(p) == b.piece_bb(p) by {
            assert(a.pieces[p.idx()] == b.pieces[p.idx()]);
        }
        assert forall|c: Color| #[trigger] a.color_bb(c) == b.color_bb(c) by {
            lemma_color_idx(c);
            assert(a.colors[c.idx()] == b.colors[c.idx()]);
        }
        assert forall|i: int| #[trigger] a.piece_at(i) == b.piece_at(i) by {}
        assert forall|i: int| #[trigger] a.color_at(i) == b.color_at(i) by {}
    }
    if (forall|i: int| #[trigger] a.piece_at(i) == b.piece_at(i)) && (forall|i: int| #[trigger] a.color_at(i)
        == b.color_at(i)) {
        lemma_same_bitboards(a, b);
    }
}

/// Two well-formed values that hold the same pieces on the same squares have the same
/// bitboards.
proof fn lemma_same_bitboards(a: ZobristBoard, b: ZobristBoard)
    requires
        a.wf_shape(),
        b.wf_shape(),
        forall|i: int| #[trigger] a.piece_at(i) == b.piece_at(i),
        forall|i: int| #[trigger] a.color_at(i) == b.color_at(i),
    ensures
        forall|k: int| 0 <= k < 15 ==> #[trigger] a.pieces[k] == b.pieces[k],
        forall|k: int| 0 <= k < 2 ==> #[trigger] a.colors[k] == b.colors[k],
{
    assert forall|k: int| 0 <= k < 14 implies #[trigger] a.pieces[k] == b.pieces[k] by {
        let p = Piece::from_idx(k);
        assert forall|i: int| 0 <= i < 81 implies bit(a.pieces[k].0, i) == bit(b.pieces[k].0, i) by {
            assert(a.piece_at(i) == b.piece_at(i));
            if bit(a.piece_bb(p), i) {
                assert(a.piece_at(i) == Some(p));
            }
            if bit(b.piece_bb(p), i) {
                assert(b.piece_at(i) == Some(p));
            }
        }
        lemma_board_ext(a.pieces[k], b.pieces[k]);
    }
    assert forall|i: int| 0 <= i < 81 implies bit(a.pieces[14].0, i) == bit(b.pieces[14].0, i) by {
        assert(a.piece_at(i) == b.piece_at(i));
        assert(bit(a.golds_bb(), i) == (a.piece_at(i) matches Some(p) && gold_like(p)));
        assert(bit(b.golds_bb(), i) == (b.piece_at(i) matches Some(p) && gold_like(p)));
    }
    lemma_board_ext(a.pieces[14], b.pieces[14]);
    assert forall|k: int| 0 <= k < 2 implies #[trigger] a.colors[k] == b.colors[k] by {
        let c = Color::from_idx(k);
        assert forall|i: int| 0 <= i < 81 implies bit(a.colors[k].0, i) == bit(b.colors[k].0, i) by {
            assert(a.color_at(i) == b.color_at(i));
        }
        assert(a.color_bb(c) <= BOARD_MASK && b.color_bb(c) <= BOARD_MASK);
        lemma_board_ext(a.colors[k], b.colors[k]);
    }
}

/// The hash is a function of the position: two well-formed values that hold the same
/// position have the same hash, whatever moves led to them.
pub proof fn lemma_same_position_same_hash(a: ZobristBoard, b: ZobristBoard)
    requires
        a.wf(),
        b.wf(),
        a.same_position(b),
    ensures
        a.hash_value() == b.hash_value(),
{
    let f = |i: int| a.square_key(i);
    let g = |i: int| b.square_key(i);
    assert forall|i: int| 0 <= i < 81 implies #[trigger] f(i) == g(i) by {
        assert(a.piece_at(i) == b.piece_at(i));
        assert(a.color_at(i) == b.color_at(i));
    }
    lemma_fold_ext(f, g, 81);
    let hf = |k: int| a.hand_slot_key(k);
    let hg = |k: int| b.hand_slot_key(k);
    assert forall|k: int| 0 <= k < 28 implies #[trigger] hf(k) == hg(k) by {
        let c = Color::from_idx(k / 14);
        let p = Piece::from_idx(k % 14);
        assert(a.hand_count(c, p) == b.hand_count(c, p));
    }
    lemma_fold_ext(hf, hg, 28);
}


/// In a well-formed position a piece bitboard holds exactly the squares of that piece, a
/// color bitboard exactly the squares of that color, and the gold bitboard the gold-like
/// pieces.
pub proof fn lemma_wf_bits(b: ZobristBoard)
    requires
        b.wf_shape(),
    ensures
        forall|p: Piece, i: int| #[trigger] bit(b.piece_bb(p), i) == (b.piece_at(i) == Some(p)),
        forall|c: Color, i: int| #[trigger] bit(b.color_bb(c), i) == (b.color_at(i) == Some(c)),
        forall|i: int| #[trigger] bit(b.golds_bb(), i) == (b.piece_at(i) matches Some(p) && gold_like(p)),
        forall|i: int| #[trigger] b.piece_at(i) is Some ==> 0 <= i < 81,
{
    assert forall|p: Piece, i: int| #[trigger] bit(b.piece_bb(p), i) == (b.piece_at(i) == Some(p)) by {
        if b.piece_at(i) == Some(p) {
            assert(bit(b.piece_bb(p), i));
        }
    }
    assert forall|c: Color, i: int| #[trigger] bit(b.color_bb(c), i) == (b.color_at(i) == Some(c)) by {
        lemma_color_idx(c);
    }
    assert forall|i: int| #[trigger] b.piece_at(i) is Some implies 0 <= i < 81 by {
        let p = b.piece_at(i).unwrap();
        assert(bit(b.piece_bb(p), i));
        if i >= 81 {
            crate::bits::lemma_wf_high_bits(b.piece_bb(p), i);
        }
    }
}


/// A well-formed value is determined by the position it holds.
pub proof fn lemma_zobrist_determined(x: ZobristBoard, y: ZobristBoard)
    requires
        x.wf(),
        y.wf(),
        x.same_position(y),
    ensures
        x == y,
{
    lemma_same_bitboards(x, y);
    lemma_same_position_same_hash(x, y);
    assert(x.pieces =~= y.pieces);
    assert(x.colors =~= y.colors);
    assert forall|k: int| 0 <= k < 2 implies #[trigger] x.hands[k] == y.hands[k] by {
        assert forall|q: int| 0 <= q < 14 implies x.hands[k][q] == y.hands[k][q] by {
            let c = Color::from_idx(k);
            let p = Piece::from_idx(q);
            assert(x.hand_count(c, p) == y.hand_count(c, p));
        }
        assert(x.hands[k] =~= y.hands[k]);
    }
    assert(x.hands =~= y.hands);
}

/// Putting a piece on a square and lifting it off again (two calls of `xor_square` with
/// the same arguments) gives back the value it started from, hash included.
#[verifier::rlimit(100)]
pub proof fn lemma_toggle_twice(pre: ZobristBoard, mid: ZobristBoard, post: ZobristBoard, piece: Piece, color: Color, si: int)
    requires
        pre.wf(),
        pre.piece_at(si) is None || (pre.piece_at(si) == Some(piece) && pre.color_at(si) == Some(color)),
        pre.toggled(mid, piece, color, si),
        mid.toggled(post, piece, color, si),
    ensures
        post == pre,
{
    assert forall|i: int| #[trigger] post.piece_at(i) == pre.piece_at(i) by {
        if i == si {
            if pre.piece_at(si) is None {
                assert(pre.color_at(si) is None) by {
                    lemma_wf_bits(pre);
                }
            }
        }
    }
    assert forall|i: int| #[trigger] post.color_at(i) == pre.color_at(i) by {
        if i == si && pre.piece_at(si) is None {
            lemma_wf_bits(pre);
        }
    }
    lemma_zobrist_determined(post, pre);
}

/// Taking a piece into a hand and then out of it again (`take_in_hand`, then
/// `take_from_hand`) gives back the value it started from, hash included.
#[verifier::rlimit(100)]
pub proof fn lemma_hand_round_trip(pre: ZobristBoard, mid: ZobristBoard, post: ZobristBoard, color: Color, piece: Piece)
    requires
        pre.wf(),
        pre.hand_count(color, piece) + 1 < 20,
        pre.hand_moved(mid, color, piece, 1),
        mid.hand_moved(post, color, piece, -1),
    ensures
        post == pre,
{
    assert forall|c: Color, p: Piece| #[trigger] post.hand_count(c, p) == pre.hand_count(c, p) by {
        if c == color && p == piece {
            assert(mid.hand_count(c, p) == pre.hand_count(c, p) + 1);
        }
    }
    lemma_zobrist_determined(post, pre);
}

/// Dominance compares the hands of the side to move piece by piece: `Dominates` only when
/// every count of the side to move is at least the other position's, `DominatedBy` only when
/// every count is at most the other's, and when the boards are equal and some count is
/// larger while another is smaller, `Incomparable`. Equal boards and hands give `Equal` or
/// `Sente`, and different boards give `Incomparable`.
#[verifier::rlimit(100)]
pub proof fn lemma_dominance_by_counts(a: ZobristBoard, b: ZobristBoard)
    ensures
        a.dominance(b) == Dominance::Dominates ==> forall|p: Piece| #[trigger] a.hand_count(a.stm(), p) >= b.hand_count(
            a.stm(),
            p,
        ),
        a.dominance(b) == Dominance::DominatedBy ==> forall|p: Piece| #[trigger] a.hand_count(a.stm(), p)
            <= b.hand_count(a.stm(), p),
        (forall|i: int| #[trigger] a.piece_at(i) == b.piece_at(i)) && (forall|i: int| #[trigger] a.color_at(i)
            == b.color_at(i)) && (exists|p: Piece| #[trigger] a.hand_count(a.stm(), p) > b.hand_count(a.stm(), p))
            && (exists|q: Piece| #[trigger] a.hand_count(a.stm(), q) < b.hand_count(a.stm(), q)) ==> a.dominance(b)
            == Dominance::Incomparable,
        (exists|i: int| #[trigger] a.piece_at(i) != b.piece_at(i)) ==> a.dominance(b) == Dominance::Incomparable,
        (exists|i: int| #[trigger] a.color_at(i) != b.color_at(i)) ==> a.dominance(b) == Dominance::Incomparable,
        (forall|i: int| #[trigger] a.piece_at(i) == b.piece_at(i)) && (forall|i: int| #[trigger] a.color_at(i)
            == b.color_at(i)) && (exists|c: Color, p: Piece| #[trigger] a.hand_count(c, p) != b.hand_count(c, p))
            && (forall|p: Piece| #[trigger] a.hand_count(a.stm(), p) >= b.hand_count(a.stm(), p)) ==> a.dominance(b)
            == Dominance::Dominates,
        (forall|i: int| #[trigger] a.piece_at(i) == b.piece_at(i)) && (forall|i: int| #[trigger] a.color_at(i)
            == b.color_at(i)) && (exists|c: Color, p: Piece| #[trigger] a.hand_count(c, p) != b.hand_count(c, p))
            && (exists|q: Piece| #[trigger] a.hand_count(a.stm(), q) < b.hand_count(a.stm(), q)) && (forall|p: Piece|
            #[trigger] a.hand_count(a.stm(), p) <= b.hand_count(a.stm(), p)) ==> a.dominance(b) == Dominance::DominatedBy,
        (forall|i: int| #[trigger] a.piece_at(i) == b.piece_at(i)) && (forall|i: int| #[trigger] a.color_at(i)
            == b.color_at(i)) && (forall|c: Color, p: Piece| #[trigger] a.hand_count(c, p) == b.hand_count(c, p)) ==> (
        a.dominance(b) == Dominance::Equal) == (a.stm() == b.stm()) && (a.dominance(b) == Dominance::Sente) == (a.stm()
            != b.stm()),
{
    let j = a.stm();
    if a.dominance(b) == Dominance::Dominates {
        assert(a.hand_bound(b, j, true));
        assert forall|p: Piece| #[trigger] a.hand_count(j, p) >= b.hand_count(j, p) by {
            assert(a.hand_count(j, p) >= b.hand_count(j, p) && true || a.hand_count(j, p) <= b.hand_count(j, p) && !true);
        }
    }
    if a.dominance(b) == Dominance::DominatedBy {
        assert(a.hand_bound(b, j, false));
        assert forall|p: Piece| #[trigger] a.hand_count(j, p) <= b.hand_count(j, p) by {
            assert(a.hand_count(j, p) >= b.hand_count(j, p) && false || a.hand_count(j, p) <= b.hand_count(j, p) && !false);
        }
    }
    if (exists|p: Piece| #[trigger] a.hand_count(j, p) > b.hand_count(j, p)) && (exists|q: Piece|
        #[trigger] a.hand_count(j, q) < b.hand_count(j, q)) {
        let p = choose|p: Piece| #[trigger] a.hand_count(j, p) > b.hand_count(j, p);
        let q = choose|q: Piece| #[trigger] a.hand_count(j, q) < b.hand_count(j, q);
        assert(!a.hand_bound(b, j, true)) by {
            if a.hand_bound(b, j, true) {
                assert(a.hand_count(j, q) >= b.hand_count(j, q) && true || a.hand_count(j, q) <= b.hand_count(j, q) && !true);
            }
        }
        assert(!a.hand_bound(b, j, false)) by {
            if a.hand_bound(b, j, false) {
                assert(a.hand_count(j, p) >= b.hand_count(j, p) && false || a.hand_count(j, p) <= b.hand_count(j, p) && !false);
            }
        }
        assert(!(forall|c: Color, p2: Piece| #[trigger] a.hand_count(c, p2) == b.hand_count(c, p2)));
    }
    if forall|p: Piece| #[trigger] a.hand_count(j, p) >= b.hand_count(j, p) {
        assert(a.hand_bound(b, j, true));
    }
    if (exists|q: Piece| #[trigger] a.hand_count(j, q) < b.hand_count(j, q)) && (forall|p: Piece|
        #[trigger] a.hand_count(j, p) <= b.hand_count(j, p)) {
        let q = choose|q: Piece| #[trigger] a.hand_count(j, q) < b.hand_count(j, q);
        assert(!a.hand_bound(b, j, true)) by {
            if a.hand_bound(b, j, true) {
                assert(a.hand_count(j, q) >= b.hand_count(j, q) && true || a.hand_count(j, q) <= b.hand_count(j, q) && !true);
            }
        }
        assert(a.hand_bound(b, j, false));
    }
}

/// XOR-ing two hashes that share all but one part leaves the difference of that part.
#[verifier::rlimit(100)]
proof fn lemma_xor_diff(s: u64, h: u64, t: u64, x: u64, y: u64, z: u64)
    by (bit_vector)
    ensures
        ((s ^ h) ^ t) ^ ((s ^ (h ^ ((x ^ z) ^ (y ^ z)))) ^ t) == x ^ y,
{
}

/// The hands enter the hash: two positions that differ only in the count of `piece` in the
/// hand of `color` have hashes that differ by the keys of the two counts,
/// `hand_key(color, piece, n) ^ hand_key(color, piece, m)`.
#[verifier::rlimit(100)]
pub proof fn lemma_hand_count_in_hash(a: ZobristBoard, b: ZobristBoard, color: Color, piece: Piece)
    requires
        a.wf(),
        b.wf(),
        a.stm() == b.stm(),
        forall|i: int| #[trigger] a.piece_at(i) == b.piece_at(i),
        forall|i: int| #[trigger] a.color_at(i) == b.color_at(i),
        forall|c: Color, p: Piece| !(c == color && p == piece) ==> #[trigger] a.hand_count(c, p) == b.hand_count(c, p),
    ensures
        a.hash_value() ^ b.hash_value() == hand_key(color, piece, a.hand_count(color, piece) as int) ^ hand_key(
            color,
            piece,
            b.hand_count(color, piece) as int,
        ),
{
    let f = |i: int| a.square_key(i);
    let g = |i: int| b.square_key(i);
    assert forall|i: int| 0 <= i < 81 implies #[trigger] f(i) == g(i) by {}
    lemma_fold_ext(f, g, 81);
    lemma_color_idx(color);
    let j = 14 * color.idx() + piece.idx();
    let hf = |k: int| a.hand_slot_key(k);
    let hg = |k: int| b.hand_slot_key(k);
    assert(Color::from_idx(j / 14) == color && Piece::from_idx(j % 14) == piece);
    assert forall|k: int| 0 <= k < 28 && k != j implies #[trigger] hf(k) == hg(k) by {
        let c = Color::from_idx(k / 14);
        let p = Piece::from_idx(k % 14);
        assert(c.idx() == k / 14 && p.idx() == k % 14);
        assert(!(c == color && p == piece));
    }
    lemma_fold_update(hf, hg, 28, j);
    let ka = hand_key(color, piece, a.hand_count(color, piece) as int);
    let kb = hand_key(color, piece, b.hand_count(color, piece) as int);
    let z = hand_key(color, piece, 0);
    let t: u64 = if a.stm() == Color::White {
        MOVE_TOGGLE
    } else {
        0
    };
    lemma_xor_diff(xor_fold(f, 81), xor_fold(hf, 28), t, ka, kb, z);
}

/// XOR-ing two hashes that share all but the square part.
#[verifier::rlimit(100)]
proof fn lemma_xor_diff_squares(s: u64, h: u64, t: u64, d: u64)
    by (bit_vector)
    ensures
        ((s ^ h) ^ t) ^ (((s ^ d) ^ h) ^ t) == d,
        ((s ^ h) ^ 0) ^ ((s ^ h) ^ t) == t,
        ((s ^ h) ^ t) ^ ((s ^ h) ^ 0) == t,
{
}

/// The board enters the hash: two positions that differ only on square index `si` have
/// hashes that differ by the keys of what stands there, `piece_key(c, p, si)` for a piece
/// `p` of color `c` and nothing for an empty square.
#[verifier::rlimit(100)]
pub proof fn lemma_square_in_hash(a: ZobristBoard, b: ZobristBoard, si: int)
    requires
        a.wf(),
        b.wf(),
        0 <= si < 81,
        a.stm() == b.stm(),
        forall|i: int| i != si ==> #[trigger] a.piece_at(i) == b.piece_at(i),
        forall|i: int| i != si ==> #[trigger] a.color_at(i) == b.color_at(i),
        forall|c: Color, p: Piece| #[trigger] a.hand_count(c, p) == b.hand_count(c, p),
    ensures
        a.hash_value() ^ b.hash_value() == (match (a.piece_at(si), a.color_at(si)) {
            (Some(p), Some(c)) => piece_key(c, p, si),
            _ => 0,
        }) ^ (match (b.piece_at(si), b.color_at(si)) {
            (Some(p), Some(c)) => piece_key(c, p, si),
            _ => 0,
        }),
{
    let f = |i: int| a.square_key(i);
    let g = |i: int| b.square_key(i);
    assert forall|i: int| 0 <= i < 81 && i != si implies #[trigger] f(i) == g(i) by {}
    lemma_fold_update(f, g, 81, si);
    let hf = |k: int| a.hand_slot_key(k);
    let hg = |k: int| b.hand_slot_key(k);
    assert forall|k: int| 0 <= k < 28 implies #[trigger] hf(k) == hg(k) by {}
    lemma_fold_ext(hf, hg, 28);
    let t: u64 = if a.stm() == Color::White {
        MOVE_TOGGLE
    } else {
        0
    };
    lemma_xor_diff_squares(xor_fold(f, 81), xor_fold(hf, 28), t, f(si) ^ g(si));
}

/// The side to move enters the hash: two positions that differ only in the side to move
/// have hashes that differ by the side-to-move key.
#[verifier::rlimit(100)]
pub proof fn lemma_side_in_hash(a: ZobristBoard, b: ZobristBoard)
    requires
        a.wf(),
        b.wf(),
        a.stm() != b.stm(),
        forall|i: int| #[trigger] a.piece_at(i) == b.piece_at(i),
        forall|i: int| #[trigger] a.color_at(i) == b.color_at(i),
        forall|c: Color, p: Piece| #[trigger] a.hand_count(c, p) == b.hand_count(c, p),
    ensures
        a.hash_value() ^ b.hash_value() == MOVE_TOGGLE,
{
    let f = |i: int| a.square_key(i);
    let g = |i: int| b.square_key(i);
    assert forall|i: int| 0 <= i < 81 implies #[trigger] f(i) == g(i) by {}
    lemma_fold_ext(f, g, 81);
    let hf = |k: int| a.hand_slot_key(k);
    let hg = |k: int| b.hand_slot_key(k);
    assert forall|k: int| 0 <= k < 28 implies #[trigger] hf(k) == hg(k) by {}
    lemma_fold_ext(hf, hg, 28);
    lemma_xor_diff_squares(xor_fold(f, 81), xor_fold(hf, 28), MOVE_TOGGLE, 0);
}

} // verus!
