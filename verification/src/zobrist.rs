//! Zobrist hash keys and the hash of a position.
//!
//! The keys are drawn from [`Prng`](crate::prng::Prng) seeded with [`RNG_SEED`]: the
//! piece-square keys first (64 per piece kind, indexed by the piece value 0 .. 11), then the
//! castling-rights keys, the double-pawn-push file keys and the side-to-move key. Pawn keys on
//! the first and eighth ranks and the key of full castling rights are zero.
use vstd::prelude::*;
use crate::types::{CastlingRights, Color, Piece, Square};
use crate::board::Board;

verus! {

/// Seed of the generator the keys are drawn from.
pub const RNG_SEED: u64 = 161803398875;

/// Number of piece-square keys.
pub const NUM_PIECE_SQUARE_KEYS: usize = 768;

/// Number of castling-rights keys.
pub const NUM_CASTLING_RIGHTS_KEYS: usize = 16;

/// Number of double-pawn-push file keys.
pub const NUM_DOUBLE_PAWN_PUSH_FILE_KEYS: usize = 8;

/// Number of side-to-move keys.
pub const NUM_SIDE_TO_MOVE_KEYS: usize = 1;

/// Index of the first piece-square key.
pub const PIECE_SQUARE_KEYS_START: usize = 0;

/// Index of the first castling-rights key.
pub const CASTLING_RIGHTS_KEYS_START: usize = PIECE_SQUARE_KEYS_START + NUM_PIECE_SQUARE_KEYS;

/// Index of the first double-pawn-push file key.
pub const DOUBLE_PAWN_PUSH_KEYS_START: usize = CASTLING_RIGHTS_KEYS_START
    + NUM_CASTLING_RIGHTS_KEYS;

/// Index of the side-to-move key.
pub const SIDE_TO_MOVE_KEYS_START: usize = DOUBLE_PAWN_PUSH_KEYS_START
    + NUM_DOUBLE_PAWN_PUSH_FILE_KEYS;

/// Number of random numbers drawn.
pub const NUM_RANDOMS: usize = SIDE_TO_MOVE_KEYS_START + NUM_SIDE_TO_MOVE_KEYS;

/// The random numbers, in the order the generator yields them.
pub const RANDOMS: [u64; 793] = [
    0x30370960f21c6e85, 0xc89b5765629c8549, 0x331b95a8b1b2f635, 0xcbaaf31df1eb8af8,
    0x1e0549f41b585771, 0x83be3fac3be32199, 0x15247774a7d9b451, 0x5ef5c54d1c2f8da5,
    0x83f806bc8dc9b074, 0x1bc504dc2f7d7cc9, 0xe8ac3db8d552c690, 0x5d65f58484cac3ab,
    0x4f6646a1af892787, 0xbe832f7e50b56381, 0xf26ec2e684fbfb20, 0x168c10801db26db8,
    0x9c8d42c4be3ad7e5, 0x25777cd3e44b080c, 0xd65f363b3cb6a807, 0xbfda9c8b7c2d3539,
    0xc0b6b12251a3360a, 0x1043cbe0e6d75692, 0x3f8d7d7615ecdcc4, 0xfe2d3462bae18258,
    0xdc1486376aa1920d, 0xfa51de0a4d18218d, 0x9cdea08e62995217, 0x8061f3ac7a49f72e,
    0xa4d348499531c49c, 0x418d463e0767836f, 0xcebd207cb9d981a8, 0xf6c6c823d2892c46,
    0x8918301e14223a7d, 0x3e49696c8b75443d, 0x12d0d07eb72c2dbc, 0x18f66a248ef2cbff,
    0x793581c826a243ae, 0xff8286848c852908, 0x812f067ea4aeb327, 0x24e4442670a5b220,
    0x250f7e7c31ed7337, 0x534c534978e0fcd5, 0x3e4b45cb39801e90, 0xbd81e5c97cb3ff7c,
    0x0cb48aaffbce75ed, 0xf35d28d801a8ad78, 0x2d30af09f8fa3985, 0x23451d3245865264,
    0x271c7340a7756261, 0xae2abeaf189c8467, 0x581771338d4b5475, 0x5b65d43cce0617a1,
    0x1a9dd605afaf7c51, 0x57ac7616c20c1bcf, 0x312078f5dbf01640, 0x08566855b1b35c22,
    0x3fd7a389e4067df2, 0x59430a74cf7ecd26, 0x51987dc9c3a1a4fa, 0xcd7cd593abb82c36,
    0xf2b85a32f042e1d3, 0x458a27ebd41b3803, 0xb105969a76139232, 0x189eefdeff8c16b6,
    0xe1fd4e4120ad256e, 0xc5e083c3f9e3744f, 0x93821b1998f7ba35, 0x94783ff1d6f0f89e,
    0x6955fe51717c0a0f, 0xf0b51119df7998ee, 0xe15a9e6b2dfc6145, 0xc422065c98aa65b5,
    0x1455c7337de123ad, 0x3c55b1c9eed4562f, 0xb0e2cec1d59c86c6, 0x22f9002d32e4604e,
    0x34bc96056f677f09, 0x0126ed4c7aaf1904, 0x39c07fa54baed765, 0xde1beb294b0e8a5f,
    0x6b9f2a979172c0e6, 0xd5ecb4fc1d70202a, 0xe1d8e139e32e63c0, 0xf9f017c7d79679a4,
    0x1e435908f4a97d8b, 0xe5819400e145675a, 0xe28a53c1f53fa6c9, 0xbab82a585e63c30f,
    0x679519a1e835a87b, 0x607dcdaf2bc4aff6, 0x9b240829feed7eb4, 0x5bd9adb955a110ec,
    0x42d76899f2dee583, 0x127e3437279e18ac, 0x3cccc751f4b7825b, 0x3e0401938fb9ab40,
    0x2510a0640cfe41bf, 0x94687be39c0af1c5, 0x9ee1f18a1fc06014, 0x25f8237fa354d908,
    0x785bd06da572810d, 0x79a085a65d61a0e0, 0xb0c377ae0f61ea06, 0xd2440acb8376f0e1,
    0x1d27a51aa6f8beb5, 0xae47299167743094, 0xca5174a914bee8a2, 0xd9d60a3bcb1e73e2,
    0x4239c7e7a2d2c215, 0x5dfaec358d8e562d, 0x9e2f1389717275b3, 0x602f2078b3b0bd94,
    0x217447283fdd59d0, 0xa50e57a227820c8e, 0x927f9f1142f093ab, 0x15578407682be41d,
    0xd00cbaa7f7e3b4ed, 0x95abbd5c15725d5a, 0x5def083afb27c045, 0x708aeb356e37cb62,
    0xf9c27de6ae1a7fde, 0xfe6b9a57048c3297, 0xf7e2c824a34dd2a7, 0xec0829ad24c91114,
    0x4868540b6828f95e, 0xcefee2bf0784088d, 0xc7e8bd5d8086eb50, 0x8459232059e79043,
    0xef913f1afc92e800, 0x2daf6a07ba4111f8, 0xf7f58fcab9d88a7d, 0x8519508a4c8199a8,
    0x2672b434cf008468, 0xea9e391cac459aa4, 0x1f9c314e24d15156, 0xa4255af681705552,
    0xcb3de471ff20ec41, 0x863d51be8b9a6150, 0xc20b4066ffe5687c, 0x5f2220ff59f8069c,
    0xb745d62b223a0745, 0x8ebc9a53a1e25ae0, 0xae15989723c7df66, 0x8a4100ed17c9c78b,
    0x4f05917ab85ed6e7, 0x12aa0a8f5cb5f716, 0xe75cab19206328f0, 0xc006619b2030c5d6,
    0x548cafffa02703d4, 0x4b7ea90cd59e0532, 0x4a552b9e71ae9009, 0x5fecf3e5980b06d5,
    0x666a885407bebdf1, 0x3dfc89fc0d975f1f, 0x534abe0e37846fb3, 0xc7e9bd1c990c9fd5,
    0x58828a81806338ab, 0x2ea28d6bfbe036da, 0x08c36623ced85262, 0x5afa7bae02d19daa,
    0xa2309cd7143143fa, 0x6a76ecb37585151c, 0x1560c3fb171589a3, 0x44b17be0e27646e2,
    0xeb7c608fd64b678f, 0x848da49a7f35ee36, 0xed89b384564517f6, 0x785d860eb1e7934f,
    0x57b6378acfe6c3ec, 0xe9287ca4fd57816d, 0x332691ca2a3d1257, 0xfcf3d688d5e15021,
    0x8bbcf06d955877e1, 0x8b0ba454ccb81077, 0x40305cc725d68b3a, 0x2d64372f21acb615,
    0x40d8d9bf49684418, 0xc2291662cb697da7, 0x8a5609a5929e73b0, 0x486d0b0905c772fd,
    0x41f2b502d6e98c51, 0x612fb73f10336fb7, 0xbe463131ccd7f8f3, 0x01512189b7d6308d,
    0x67f322114fa7cc0c, 0x0c9507811276990b, 0x8a0124d0e5244c1f, 0x1e632347a9c1b76c,
    0x3ba3d509444d4992, 0xff8b57723f39258a, 0xec0c685ae6486804, 0xecc3d220c9b281b0,
    0xb68d534ac646d3e8, 0xf32825478a7efabd, 0x0d42971f9e590ab5, 0x2a490028f1ab518b,
    0x86b5c75daddcabda, 0xfd65752516756f52, 0x1d50518ef769ee36, 0xd8545b228fbb19ac,
    0x175c7ee688fbca66, 0x859f1f615ae0f9f4, 0x03e1a401f5458189, 0xf93ae7b09ca906e3,
    0xec6962532224d922, 0xbea91f516aac52e5, 0x81bd8826000c46ae, 0x24bf356ca43c8a33,
    0xb5f27f5e2a7c9ba3, 0x523f85bb3deb4fab, 0x2f2526f23bfec16a, 0x0de469f3969b3395,
    0xccd49695b75e2bee, 0xf6e678da3b64df55, 0x581856ba220ad477, 0x7a5f4b6d61d752d4,
    0x4f3cbd54afe9bd18, 0x6c1386169e183e32, 0x1c41e71e32b201dd, 0xbf4599b3946a5eb3,
    0x04ee24f315ec1efd, 0x4b9cdba0b1d646f9, 0xe24163e6f836ce4c, 0xa320cf6673c2bbe3,
    0xdd61bff43f8a5372, 0xf53b66f665c79f48, 0xebb3277a3269c080, 0x36a52fc9b8167c31,
    0xb3e3cb4e03995b24, 0x3321b80bd8a299f8, 0x834b7b4a56dc2e2d, 0xa70b5e58f708b11f,
    0x1b76de7ef9422d04, 0x88cbee935307deaf, 0xff924587c1dd3f1d, 0xeeec5a0e35e4c1f0,
    0xef8e6f7bfb550994, 0x6fccec4487d72b24, 0xa7172d49c38cbea2, 0xf8733ae112523f21,
    0x17df1d159f43dcad, 0x8c0172d84111d92b, 0x8bfeafb4779932c2, 0xd4c0e5312bc3b0c5,
    0x50eff038ee6c0236, 0xa0a88d0177f22f00, 0x4b5b482b5feb55b1, 0xcfd742599f2b897a,
    0x0989f3bd767f7de4, 0x6608a539e77965bc, 0x5f93948f9be5bab6, 0xad1f9725c0100272,
    0x65085d59e758b61a, 0x339ad7a5b857372c, 0x502f2a3184423d14, 0x258c9db74dfc6f73,
    0x16e0d93fea718816, 0x9289477f966551df, 0x76b7ead89dbc73c1, 0x4a555c0fe0aedc14,
    0x63bb9d2835f5b324, 0xe633dccf9cfb10e2, 0x847055ed2c82d26b, 0x9cde54dadf0145f6,
    0x86ef5143a3ef8a0b, 0x110d395604a9c5b1, 0x0619a1666ad99132, 0x13f85e052da671e2,
    0x02d19b6e95add9b7, 0xc3468a39748091cf, 0x23bc98f6c0918612, 0x23813f52e21475eb,
    0x26c4dcbc673400bb, 0x3edd8003dd6ef6f2, 0xfbe70ecc5ce9569f, 0x0ef83edb089341c6,
    0x4ed4292b88edece6, 0x8e2e5fd57381a5ca, 0x157bff3229bd572c, 0xbff9c39997b46021,
    0x3dc8ba821419bfcd, 0xf0030820671d7249, 0x76e3ad1f8ea60373, 0x99a58f4b2e4c9921,
    0x70a0a7ecc63a584e, 0x2d7c6b83e9f9dcdc, 0x5235464ffc1892a1, 0x10e3cb3fb51151ab,
    0xeafc881275303be6, 0x61fe1a0f283fc96d, 0x298877f3d47db183, 0xe261a79f4692a9ba,
    0x21d61e3c40f0572a, 0x5783ae5baa8b20fe, 0xe44ac7150556f803, 0x12f6da618f6a784a,
    0xc0a8e48cef7e7d39, 0xf0f0381742ee924e, 0x8303471307607572, 0x182092f69d65a406,
    0xbbe9bd7043f35e7b, 0xb84193e1d28f6078, 0x8443c9d6614e7bea, 0xab84c4f81f9f28dc,
    0x109440e83fd15103, 0x9e0fb542d9f0447c, 0x5d965815b6259423, 0xdce15186e548f0ef,
    0x3dde61204e296f52, 0x4bc0119d20fdd604, 0x4cc49b32d4b51855, 0xd6d3063675185aa5,
    0x597cc2d9efde6ba4, 0x2014502334aa4370, 0x2f3a750e4f68a89d, 0xaeb42523f6d54698,
    0xf0b45417224ac80e, 0xbfd42f8302242976, 0xe77a317d70ffbb48, 0xd1a3b3ade2752284,
    0xed39edd36594273f, 0x41f812bb8ec75659, 0x5e6bc0dedc45a693, 0xdea0a568eb987342,
    0x2355a47ba091ab7a, 0x2f5f89f9682265dc, 0xbaaf9569c612fcf4, 0xee2513c59b85123f,
    0xbde23d6389c48957, 0xb4647ede53ab6b71, 0xc3c27619ebeb3cc8, 0xb7c7168b775aad77,
    0xf66dba84dd5c32eb, 0xaf72e64d8f2f6174, 0x186b73fabad6b926, 0x13ea86427cdcb912,
    0x4deca1561d5bbb9a, 0x17e64905c97a5631, 0x9b8bcf93830766d4, 0x3fb783003b3b9dbc,
    0xab4cc90f3f08ef0a, 0x0976a61143929d7c, 0x59c9d71e382ceca7, 0x612a221ab0a748f1,
    0x6e697d9c77c05240, 0x412d0a649119b752, 0x5a37491b4b6529fb, 0xc059ef8f42e02c6a,
    0xef13f7c43029fb29, 0x5e2fd9604764bd3f, 0xd43231fa5fb98e9a, 0x84fa4f0fb31f672e,
    0x424c038d622e82e0, 0x2ae801952d8ce8e9, 0x5ff183e7ae1822e2, 0xeb6860fe23cc1f43,
    0x667ccf0ee1d24318, 0x74f5cd3369e50228, 0x290f965ed0c2695a, 0x64dad25741329364,
    0xdf27fd75ff3392ca, 0x1ba5977e69ec64fe, 0xc76ee5011960ebb5, 0xd7ca4b488ffe04e3,
    0x2c0f87d5ec823ee3, 0xdeedd9a3c3474c36, 0x0b49c790fc485498, 0x2787d460596d0804,
    0xa5797b0cfb47d68d, 0xe98d28a5287f664b, 0x9bfc77538adc3773, 0x2773aec45ce9a67a,
    0x422e54670695fd0d, 0x902a4a24a0232b43, 0xd1b773d547c84e0f, 0x0214aa42f72cd45c,
    0x9ac979250ce1c275, 0x7efde7fd41bfa019, 0x3e4958d87500df15, 0x35bdf8379eec8266,
    0xd86a6b67453b3ec3, 0x55e321ca95a53024, 0x32b86c1cb4ccf721, 0xc89fb6ae97e4538f,
    0xefd803b296bd6586, 0xac4b0bd3f2e14a51, 0x99b1c68ae65eadcb, 0xd9a644de3d9f75b0,
    0xdb2491159e40f416, 0xf0566fef5d725042, 0x4f9e0f1938d1f33d, 0x9671063a328915ff,
    0x6a83d79619093262, 0x8e8b93fad8a4dacb, 0xd186554e4ffb6149, 0xcd4ce8c9391fe09b,
    0xad52f046b2fb1fcd, 0x0e7008909075952d, 0x78b9949a17ddd8b9, 0x19aab4e66ac2811e,
    0xc60e71123ea82bd0, 0x1d59dc2b92b7249b, 0xee6aa2941c4b3573, 0x35120497403824b1,
    0x1e17f27533d822c3, 0xefeeec97afefbd48, 0x044612f01ead67a4, 0x1f21ac10b0720c21,
    0x7721c73c947e9b7b, 0x38493b9b384f02f5, 0x8b9d55eedc560c9c, 0x4de25d5a01b70c53,
    0xc772df17e7ef40c5, 0xc16f55003e7b9bd3, 0x889ec3d0aee86b56, 0x27774ba440dc5813,
    0xb7512195c0a1f4fb, 0x8d4a0ebad0785d03, 0x32c446072531f426, 0x0a2392904fb2babd,
    0x17a5287b5a9bab65, 0x18cf06ce8fcc8a6c, 0xbf6ec40d5e2cdc53, 0x2d6da440c6384ee6,
    0xc0020cfd64b54932, 0x06c370b5ea70361e, 0x3fba0a7147db6844, 0x4cdabaec8a27494b,
    0x84fd3a50ff2c6d81, 0xb1edd85501b49d34, 0x6e43c5a900a3c352, 0x14ab108fd07ea851,
    0x90f379885f44658e, 0xac109957fbdbffa4, 0xdcbf95399f6f4c52, 0x3be7bccc12b962ac,
    0xa50c45a9586a889f, 0xbbf4d3b044b1a780, 0x1738622a3d732c1e, 0x7f3e400c6b683d98,
    0x7052ec53f363704a, 0x782d5a84a07ebc95, 0xee5e43c5ea27f85a, 0xc8b6ed8c158d8ec6,
    0x7780706b7bfd35d3, 0x2c5c508b9f32a94d, 0xb307e6813ecc1abe, 0xa7abc60ae63b173c,
    0x6f39744053eaed83, 0xee14c19d8c2f23ee, 0x36ac57aa1eb1510a, 0x1bbba16a1a3ed8d6,
    0x517fb64f8c4d5a88, 0xf126b7a42c274aec, 0x6e154c315bc01359, 0xf075370df8d07beb,
    0x121b4acaefbf0be7, 0x7e3d39fb82e055e5, 0x5c112b61b907d2a8, 0xf9531f360f4fd49a,
    0xfa795e0a18960986, 0x066e19107ecf79d2, 0xd352c6fe330fb834, 0x477a128f53fa122b,
    0xcb97117510065009, 0x8f00fc93c8e0b67d, 0x7c6bcceef99d76ce, 0x9c05b8b495f355e0,
    0x82b1e627686c8b4f, 0x7bd9bdcce9c776ec, 0x9994b5011f5d3517, 0x89d91331bcf9c77b,
    0x72c83e44327f7960, 0x92ed4aa3f3e74748, 0x10b5628224c43d47, 0x2075a71a9587a289,
    0x414d9a83e5dbd3e1, 0x8df1f7472b7ad432, 0x02ad9a0a0d1ee949, 0xb9d51e3869f0939c,
    0x206991761f6bb08c, 0x82ceab7dc482eb52, 0xb3d035d8308737b4, 0xfae920176c523def,
    0xbbe2e6c1aac3ac8b, 0xe44cc3173032c58e, 0x5e3c86cd90162d9d, 0xee40096e73559969,
    0x0b9ba8d6cf48edfb, 0x77dc55711b6f4377, 0x16e8c2a4b5ecb434, 0x4b4de6228f195eff,
    0xa2462bf62f1e407e, 0x2eebd010e44e32f3, 0x9e65a97ebd378c1d, 0x90c9b4c3cee047d1,
    0x2fc24371bdd79e5e, 0x696de1ce8e99fa9e, 0x253513329df54dd8, 0x61dcbea83ad6ea96,
    0xda1b9e96fd9d432e, 0x817daab90f48c51d, 0x900a6d1f81fa2225, 0xeb195fe9bea27e31,
    0x33c3d8e736901357, 0xa7c85d49b6de86f6, 0xa937aa549130e72e, 0xfd51e68faedcf9e2,
    0x23068afb76f7e996, 0xab024354bd95a6b1, 0xa35b2a30d3d2ce5b, 0xa125efbbee0f5754,
    0xefdaf1655a15620c, 0x692317ca5daf6904, 0xa145742a0ca91ca6, 0xc9b0110582e4de29,
    0xb1d7721326ecd56a, 0x95eef17420692ef6, 0x81cc4ab815837de2, 0x028ab2bdcc6b1b08,
    0x809d418cf0635142, 0x2ce4cebca5cd550b, 0x48e84a13694472a8, 0x601a51565dc35d5f,
    0x2ef7b9513ed447c4, 0x7b9b5a24a9f89cfd, 0x6cd7f4d45cf34c99, 0x81b22c213f356f29,
    0x7c47a3687c4cb238, 0x32a544ec6cf3b982, 0x87e118d0813a70cc, 0xa3f80380f14cbb4a,
    0x0e96c33a1be1c1a1, 0x3a2ce0c3c31141a3, 0xda67ff70568f7e3f, 0x83448abd11a24417,
    0xd1cea9280fcfa190, 0x3c432470c65b3b75, 0xec62f4f48615beb7, 0x8603e0dd7071d9b1,
    0x2ce500fc5cb92227, 0xe1e19bad54488040, 0xecb1044761a0d895, 0x4c2b8579791c04cd,
    0x7c30f3c3ee56b803, 0x001b7e09a4eeb589, 0xa02b4cfcba8596c8, 0xe577f2eaaf9157d1,
    0xccc80ce12cbe930e, 0xfe06c176be7d3fb6, 0xfce2e1bacb3ddaae, 0x724e38d9a71684c1,
    0x6affb6453ad0ccd1, 0x2b40f75f70f43862, 0x538cfce6553afcea, 0xbdd1bb9112a5563f,
    0x0467e458cf9c1fba, 0x119cefbdae4d0cec, 0xa726382c37034144, 0xcadf05e14f6058c8,
    0xdd955cc6601c0f64, 0x8924969ccd5492a4, 0xc15078b47594a7fd, 0x812e637152f592b0,
    0x70c4bd339309c082, 0x2d993f7caf499c4f, 0x7aaf76c4bebd5a0d, 0x8cbb5dbcccd609b9,
    0x8774272d17bc7aa0, 0xa2871cf8c9abe29f, 0x92603d871b7e9ad8, 0xbc31ae677c64e731,
    0xfa17e2a9a8f3bf9f, 0xc45e079b87bc8d86, 0x3759dbca3cf7d9c8, 0x26ec0b6f47e19be5,
    0x26aa6f0f2d5f6fd5, 0xcb8934e647898df3, 0x45dd8e87a8476788, 0x4be068428b2d8ec0,
    0xfbbf597c6c240fe2, 0x40ae9d81cf73d1f9, 0xc7ef49a164e68ac1, 0x7ee9e9e460c2b5ee,
    0x0337cd9d645adedb, 0xe4d846d929306bc7, 0xb020a976400cf79b, 0x07d002b5949d2b5d,
    0x392496896c79b28e, 0xcbe3d9c9b72d5c3b, 0x2546af1f3e51b492, 0x57a8106c46972823,
    0xf8b61295db66e270, 0x7780cd21b1a9afc4, 0x7294a33dcf4d83ed, 0x3d9062fd30a2ea47,
    0xcec1af57654469f4, 0x17ae226f72e42acf, 0x43c84b0ec2a2dd69, 0x79730d7c32e9ea47,
    0xd733f2a726528523, 0x850f803973c80ec4, 0xa9a498d86288f059, 0xb7f0569bef5bbf0b,
    0x520d7441a814d630, 0xaf37f206242150e5, 0x5282d4888a4f6929, 0xe4dd4b62c2432029,
    0xac49ceb731f188c4, 0xb052461fbbfb89a3, 0x8f2bf1c9938ad568, 0x2796bdfc605ac7a9,
    0x967eda3d66c0b1f1, 0x44b6638191cbd983, 0x4dcde45e8a32e30a, 0xc6e0ef5b32952a91,
    0xb5013300e9178c0c, 0x4eed3e0be843d543, 0xb32eba86d8ac0231, 0x61189d89d1675a21,
    0xc88943f3bd354c58, 0xac1d001b29caf886, 0x328e39877de8478d, 0x25343b4219023e7d,
    0xdfbb439f1f17ca12, 0x5fdb120c7ffe80b3, 0xab26db701908bcb3, 0x61e1ecbd24023afd,
    0xe12d47705e8ffe89, 0xcec8d0fa2af5f6e1, 0x0a3dc7238b1aa5b9, 0xd4ed81e55c2fc88a,
    0x86af507d5f533bea, 0x9aae28ffb4ea193f, 0x5f971c374860b596, 0x27ab6fa6885d9f59,
    0xc4c332ff9917d7f6, 0x7a41d577212f8e2a, 0x56f7ebd15636f0ac, 0x990ebfaa790962c1,
    0xcdf14d0c0a0de91c, 0x5b91024fc19a1302, 0xb8d55885a7361b21, 0x273ad0ae8f721fb2,
    0x735b3861ce12b9bc, 0xa5babfc711ec3e14, 0xa4f3ee5e662f9154, 0xa13c9b3d5625c718,
    0x69ad8a9499617be0, 0xe7172018a3c1dc0f, 0xb856eaca02a34118, 0x8c5b18a0d8848833,
    0x3180a68b85ef1e8a, 0xd492c58fc56fb184, 0x919c6f67948e43d0, 0x48d74ba0be267c13,
    0xae6bb7a7e653f1ee, 0xf3a2498fb6eda0d8, 0x62ce94ef36cfbdaf, 0x5ce511dc068e21e4,
    0x2f9973bd178eef5f, 0x86cdb56e59e91426, 0x30a1e7167be89437, 0x5744eb6cb6921e4f,
    0x0306671264ea1244, 0x437d047dae088665, 0x332aa97b681a262d, 0x6c8de7be43a4c8eb,
    0xcb1fa10fc8534f28, 0x82f3559967002aa0, 0x8352cfa3a6b85529, 0xabf8f37b02b7cd19,
    0x70aa8755eb522483, 0x777f69d7a0e71cfb, 0xe0c875d911b48ab9, 0x3a289b559477f593,
    0xa83a9c0245f4aa2b, 0x44e5ad36c4f169f3, 0xaecd2c4c4d855cb1, 0x3d60c42cf6a83740,
    0x4f25e4c64b5f98f7, 0x9957e4d39b8a8168, 0x7ac52dc9d3161c74, 0x9a04887192cd0667,
    0x2dabec91f746b95a, 0x83859b6feeb1118e, 0x32f90508315042af, 0x9f40580886303989,
    0xf24d5149b15aae57, 0x1dbff9eb87bd44ac, 0xa2d79c84f6a126b1, 0x5e6d732796d4b830,
    0x80fa0b0447f77d99, 0xb185e75a748ea676, 0x1fc8617db4ff241e, 0xe13fc61543dbb872,
    0xbf02c92e2acfa568, 0xbd0a71cdc4c0dd53, 0xad4e25d16c05e487, 0xed5e94775e254d76,
    0xc97964a8b8674d94, 0x8601fdd1e70c6d24, 0x6f67d36c7be6927a, 0x060e12de1292ac0f,
    0x19379e72fcd66114, 0x6c530d86236c8a66, 0xe6ae9229fbe9e0ec, 0x636055f1707f0b35,
    0x6c5927561e37e72d, 0xc9032a132b9964f2, 0xe92ce4433dea4c34, 0x1d097eb0f196bca4,
    0x1698ff6718d89c1e, 0x091d31050cad81f6, 0x5e848b3975a64e85, 0xe2bb155ca73bb9f7,
    0x1880f5e8387b51c5, 0x3cd004d8ad6d38ec, 0x1cb7dd7d8501f0cc, 0x2e7f05b730b28df7,
    0x4af58c5c81dccc94, 0x9ecf694c24e5c54e, 0x5d47325eead180f6, 0x434c61e4ce1928e7,
    0x06a107a0abb991e7, 0xc7cb35f822a29479, 0x249bf29848e17a7d, 0x2d3d1f5a328d5ee3,
    0xca2f901f8f18628c, 0xd8881af16fa80c5b, 0x4e5a89ceb43b9c5d, 0xa59075b3267581b8,
    0x4c46f0dace1d2284, 0x90a63c6a3c9b40da, 0x0fd5b0ae84cba7b9, 0xc539c1f0ab1426a8,
    0x92658127fbda772c, 0xfb5433e1d8adcc00, 0x8c70f5b4740b3aa0, 0x42a11343af951f1a,
    0x8361a9bb1a5f9adf, 0x965351ed3cd0c67d, 0x0ef1e1e3933f3731, 0x5d7e601325659c18,
    0x070d53fccf290e6d, 0x0c212d06068d7b0f, 0xe060aad2eaba6a93, 0x8b741dac318dc0ca,
    0xdd2c8e05d76b514c, 0x130593a3ea4104c4, 0x355ad90ceaa1a256, 0xc8c3f927cb80002f,
    0x7164d10fc5fe12f9, 0x6fe578890ede424e, 0xfacd787de665c8b9, 0x9bc627e99fc9ae8d,
    0x4772bc7c56f6aa6c, 0x6300b83eeec26252, 0xf9b1528c37a21fd5, 0x4067a2ca31ff71f2,
    0xd92d1eb3fa979716, 0x03e107ec038826a7, 0x085296621cc25180, 0x26b7355d3fba2190,
    0x19fe83b804fef0b9, 0x39b3c18bc6db6153, 0xa0572eb1967bac69, 0xb30f06dc48b7d073,
    0xf773ed3169ac9b42, 0x51ada7de6d5bd74e, 0x79cd0a95b49612e5, 0xe54577176e2d2b57,
    0xbeaa63ad7f526214, 0x18235d1e6a8852cb, 0x5e24a34d0c5c7f05, 0xb283a0c1396a2566,
    0x227caf999bd5b469, 0x7f28c64fca79e441, 0x76b89734fb433851, 0x36d6876cc0d2abcd,
    0x3f62a44490ad8e0a, 0xd0d85ebedc463531, 0xa5fdbb61b70a2918, 0x391e1675afdf4ae9,
    0xc99c0da298bd968b, 0x3a6b1f70f164204e, 0xdf9371135a30e8e5, 0x4005f3295ced632c,
    0x80f5cae4c66c710e, 0x3fa8bb8b5c5606be, 0xc6eeeda68613adf1, 0xef784deddeabeb27,
    0x15dd7e5d36670e06,
];

/// The key of `piece` on the square with index `s`.
#[verifier::opaque]
pub open spec fn psk(piece: Piece, s: int) -> u64 {
    if piece == Piece::Pawn && (s < 8 || s >= 56) {
        0
    } else {
        RANDOMS[PIECE_SQUARE_KEYS_START + piece.idx() * 64 + s]
    }
}

/// The key of the castling rights `cr`.
#[verifier::opaque]
pub open spec fn crk(cr: CastlingRights) -> u64 {
    if cr == CastlingRights::B1111 {
        0
    } else {
        RANDOMS[CASTLING_RIGHTS_KEYS_START + cr.value()]
    }
}

/// The key of the double-pawn-push file `f` (zero when no file is set).
#[verifier::opaque]
pub open spec fn dpk(f: i8) -> u64 {
    if f < 0 || f >= 8 {
        0
    } else {
        RANDOMS[DOUBLE_PAWN_PUSH_KEYS_START + f]
    }
}

/// The key of the side to move.
#[verifier::opaque]
pub open spec fn stmk(c: Color) -> u64 {
    if c == Color::White {
        0
    } else {
        RANDOMS[SIDE_TO_MOVE_KEYS_START as int]
    }
}

/// Returns the key of `piece` on `square`.
pub fn piece_square_key(piece: Piece, square: Square) -> (r: u64)
    ensures
        r == psk(piece, square.idx()),
{
    reveal(psk);
    let s = square.index() as usize;
    if piece.index() == 1 && (s < 8 || s >= 56) {
        0
    } else {
        RANDOMS[PIECE_SQUARE_KEYS_START + piece.index() as usize * 64 + s]
    }
}

/// Returns the key of the castling rights.
pub fn castling_rights_key(castling_rights: CastlingRights) -> (r: u64)
    ensures
        r == crk(castling_rights),
{
    reveal(crk);
    let b = castling_rights.bits();
    if b == 15 {
        0
    } else {
        RANDOMS[CASTLING_RIGHTS_KEYS_START + b as usize]
    }
}

/// Returns the key of a double-pawn-push file (`0` when no file is set).
pub fn double_pawn_push_key(double_pawn_push_file: i8) -> (r: u64)
    ensures
        r == dpk(double_pawn_push_file),
{
    reveal(dpk);
    if double_pawn_push_file < 0 || double_pawn_push_file >= 8 {
        0
    } else {
        RANDOMS[DOUBLE_PAWN_PUSH_KEYS_START + double_pawn_push_file as usize]
    }
}

/// Returns the key of the side to move (zero for White).
pub fn side_to_move_key(side_to_move: Color) -> (r: u64)
    ensures
        r == stmk(side_to_move),
{
    reveal(stmk);
    match side_to_move {
        Color::White => 0,
        Color::Black => RANDOMS[SIDE_TO_MOVE_KEYS_START],
    }
}

/// XOR of the keys of the pieces `f(s)` on the squares `s < n` (an empty square counts with
/// the key of `Null`).
pub open spec fn pieces_hash(f: spec_fn(int) -> Piece, n: int) -> u64
    decreases n,
{
    if n <= 0 {
        0
    } else {
        pieces_hash(f, n - 1) ^ psk(f(n - 1), n - 1)
    }
}

/// The piece kind on each square of a board.
pub open spec fn piece_fn(b: Board) -> spec_fn(int) -> Piece {
    |s: int| b.piece(s)
}

/// The piece-placement hash of a board.
pub open spec fn board_hash(b: Board) -> u64 {
    pieces_hash(piece_fn(b), 64)
}

/// The full hash of a position: placement, castling rights, double-push file and side to move.
pub open spec fn position_hash(b: Board, cr: CastlingRights, dpf: i8, stm: Color) -> u64 {
    board_hash(b) ^ crk(cr) ^ dpk(dpf) ^ stmk(stm)
}

proof fn bv_xor_swap(a: u64, d: u64, k: u64)
    by (bit_vector)
    ensures
        (a ^ d) ^ k == (a ^ k) ^ d,
{
}

pub proof fn bv_xor_assoc(a: u64, b: u64, c: u64)
    by (bit_vector)
    ensures
        a ^ (b ^ c) == (a ^ b) ^ c,
{
}

proof fn bv_xor_change(a: u64, k1: u64, k2: u64)
    by (bit_vector)
    ensures
        (a ^ 0) ^ k2 == (a ^ k1) ^ (k1 ^ k2),
{
}

/// Changing the piece on one square `x` changes the hash by the keys of the old and new piece.
pub proof fn lemma_pieces_hash_change(f: spec_fn(int) -> Piece, g: spec_fn(int) -> Piece, x: int, n: int)
    requires
        0 <= x,
        forall|s: int| 0 <= s < n && s != x ==> #[trigger] f(s) == g(s),
    ensures
        pieces_hash(g, n) == pieces_hash(f, n) ^ (if x < n {
            psk(f(x), x) ^ psk(g(x), x)
        } else {
            0
        }),
    decreases n,
{
    if n <= 0 {
        assert(0u64 ^ 0u64 == 0u64) by (bit_vector);
    } else {
        lemma_pieces_hash_change(f, g, x, n - 1);
        let d = if x < n - 1 {
            psk(f(x), x) ^ psk(g(x), x)
        } else {
            0
        };
        if n - 1 == x {
            bv_xor_change(pieces_hash(f, n - 1), psk(f(x), x), psk(g(x), x));
        } else {
            assert(f(n - 1) == g(n - 1));
            bv_xor_swap(pieces_hash(f, n - 1), d, psk(f(n - 1), n - 1));
        }
    }
}

/// Boards that differ only on square `x` have hashes that differ by the keys of the pieces on
/// `x`.
pub proof fn lemma_board_hash_change(a: Board, b: Board, x: int)
    requires
        0 <= x < 64,
        forall|s: int| 0 <= s < 64 && s != x ==> #[trigger] a.piece(s) == b.piece(s),
    ensures
        board_hash(b) == board_hash(a) ^ psk(a.piece(x), x) ^ psk(b.piece(x), x),
{
    lemma_pieces_hash_change(piece_fn(a), piece_fn(b), x, 64);
    bv_xor_assoc(board_hash(a), psk(a.piece(x), x), psk(b.piece(x), x));
}

impl Board {
    /// The piece-placement hash: the XOR of the key of the piece on every square.
    pub fn calc_zobrist_hash(&self) -> (h: u64)
        ensures
            h == board_hash(*self),
    {
        let mut hash: u64 = 0;
        let mut i: u8 = 0;
        while i < 64
            invariant
                i <= 64,
                hash == pieces_hash(piece_fn(*self), i as int),
            decreases 64 - i,
        {
            let square = Square::from_u8(i);
            let piece = self.piece_at(square);
            hash = hash ^ piece_square_key(piece, square);
            i = i + 1;
        }
        hash
    }
}

/// Returns the full hash of a position from its board, castling rights, double-push file and
/// side to move.
pub fn calc_position_zobrist_hash(
    board: &Board,
    castling_rights: CastlingRights,
    double_pawn_push_file: i8,
    side_to_move: Color,
) -> (h: u64)
    ensures
        h == position_hash(*board, castling_rights, double_pawn_push_file, side_to_move),
{
    board.calc_zobrist_hash() ^ castling_rights_key(castling_rights) ^ double_pawn_push_key(
        double_pawn_push_file,
    ) ^ side_to_move_key(side_to_move)
}

/// Boards that differ only on the squares `x` and `y` have hashes that differ by the keys of
/// the pieces on them.
pub proof fn lemma_board_hash_change2(a: Board, b: Board, x: int, y: int)
    requires
        0 <= x < 64,
        0 <= y < 64,
        x != y,
        forall|s: int| 0 <= s < 64 && s != x && s != y ==> #[trigger] a.piece(s) == b.piece(s),
    ensures
        board_hash(b) == board_hash(a) ^ ((psk(a.piece(x), x) ^ psk(b.piece(x), x)) ^ (psk(
            a.piece(y),
            y,
        ) ^ psk(b.piece(y), y))),
{
    let f = piece_fn(a);
    let g = piece_fn(b);
    let mid = |s: int|
        if s == x {
            b.piece(x)
        } else {
            a.piece(s)
        };
    lemma_pieces_hash_change(f, mid, x, 64);
    lemma_pieces_hash_change(mid, g, y, 64);
    bv_xor_four(board_hash(a), psk(a.piece(x), x), psk(b.piece(x), x), psk(a.piece(y), y), psk(b.piece(y), y));
}

proof fn bv_xor_four(h: u64, a: u64, b: u64, c: u64, d: u64)
    by (bit_vector)
    ensures
        (h ^ (a ^ b)) ^ (c ^ d) == h ^ ((a ^ b) ^ (c ^ d)),
{
}

/// XORing the same value into a hash and into the board hash leaves the hash error unchanged.
pub proof fn lemma_err_board(h: u64, bh: u64, d: u64, c: u64, p: u64, e: u64)
    by (bit_vector)
    ensures
        (h ^ d) ^ ((((bh ^ d) ^ c) ^ p) ^ e) == h ^ (((bh ^ c) ^ p) ^ e),
{
}

/// Swapping the castling key in both the hash and the position hash leaves the error unchanged.
pub proof fn lemma_err_castling(h: u64, bh: u64, c: u64, c2: u64, p: u64, e: u64)
    by (bit_vector)
    ensures
        (h ^ (c ^ c2)) ^ (((bh ^ c2) ^ p) ^ e) == h ^ (((bh ^ c) ^ p) ^ e),
{
}

/// Swapping the double-push key in both leaves the error unchanged.
pub proof fn lemma_err_dpf(h: u64, bh: u64, c: u64, p: u64, p2: u64, e: u64)
    by (bit_vector)
    ensures
        (h ^ (p ^ p2)) ^ (((bh ^ c) ^ p2) ^ e) == h ^ (((bh ^ c) ^ p) ^ e),
{
}

/// Swapping the side-to-move key in both leaves the error unchanged.
pub proof fn lemma_err_stm(h: u64, bh: u64, c: u64, p: u64, e: u64, e2: u64)
    by (bit_vector)
    ensures
        (h ^ (e ^ e2)) ^ (((bh ^ c) ^ p) ^ e2) == h ^ (((bh ^ c) ^ p) ^ e),
{
}

/// The side-to-move keys of the two colors differ by the key of Black.
pub proof fn lemma_stmk_flip(c: Color)
    ensures
        stmk(c) ^ stmk(c.opp()) == stmk(Color::Black),
{
    reveal(stmk);
    let k = stmk(Color::Black);
    assert(0u64 ^ k == k && k ^ 0u64 == k) by (bit_vector);
}

} // verus!
