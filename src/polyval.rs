//! GF(2^128) in the POLYVAL basis, held in Montgomery form, and the fixed
//! linear maps between it and the 128-bit tower field.
use vstd::prelude::*;
use crate::field::{BinaryField128b, FieldError};

verus! {

/// Carry-less product of `a` with the low `n` bits of `b`.
pub open spec fn clmul_upto(a: u64, b: u64, n: nat) -> u128
    decreases n,
{
    if n == 0 {
        0
    } else {
        let i = (n - 1) as nat;
        let prev = clmul_upto(a, b, i);
        if (b >> (i as u64)) & 1 == 1 {
            prev ^ ((a as u128) << (i as u128))
        } else {
            prev
        }
    }
}

/// Carry-less product of two 64-bit words.
pub open spec fn clmul64(a: u64, b: u64) -> u128 {
    clmul_upto(a, b, 64)
}

pub open spec fn lo64(x: u128) -> u64 {
    x as u64
}

pub open spec fn hi64(x: u128) -> u64 {
    (x >> 64u128) as u64
}

/// Montgomery reduction of the 256-bit product with 64-bit words `w0..w3`
/// (least significant first): two folding rounds, each shifting right by 1, 2
/// and 7 and left by 63, 62 and 57 within 64-bit words.
pub open spec fn mont_reduce(w0: u64, w1: u64, w2: u64, w3: u64) -> u128 {
    let v2 = w2 ^ w0 ^ (w0 >> 1u64) ^ (w0 >> 2u64) ^ (w0 >> 7u64);
    let v1 = w1 ^ (w0 << 63u64) ^ (w0 << 62u64) ^ (w0 << 57u64);
    let v3 = w3 ^ v1 ^ (v1 >> 1u64) ^ (v1 >> 2u64) ^ (v1 >> 7u64);
    let v2b = v2 ^ (v1 << 63u64) ^ (v1 << 62u64) ^ (v1 << 57u64);
    (v2b as u128) | ((v3 as u128) << 64u128)
}

/// Montgomery product: the 256-bit carry-less product by Karatsuba from three
/// 64-by-64 products, then Montgomery reduction.
pub open spec fn polyval_mul(a: u128, b: u128) -> u128 {
    let t0 = clmul64(lo64(a), lo64(b));
    let t1 = clmul64(hi64(a), hi64(b));
    let t2 = clmul64(lo64(a) ^ hi64(a), lo64(b) ^ hi64(b)) ^ t0 ^ t1;
    mont_reduce(lo64(t0), hi64(t0) ^ lo64(t2), lo64(t1) ^ hi64(t2), hi64(t1))
}

/// Montgomery form of one.
pub open spec fn polyval_one() -> u128 {
    0xc2000000000000000000000000000001u128
}

/// `a^(2^i)`, by repeated squaring.
pub open spec fn polyval_pow2k(a: u128, i: nat) -> u128
    decreases i,
{
    if i == 0 {
        a
    } else {
        let p = polyval_pow2k(a, (i - 1) as nat);
        polyval_mul(p, p)
    }
}

/// `prod_{1 <= i <= n} a^(2^i)`.
pub open spec fn polyval_pow_chain(a: u128, n: nat) -> u128
    decreases n,
{
    if n == 0 {
        polyval_one()
    } else {
        polyval_mul(polyval_pow_chain(a, (n - 1) as nat), polyval_pow2k(a, n))
    }
}

/// The inverse `a^(2^128 - 2)`, with zero sent to zero.
pub open spec fn polyval_inv(a: u128) -> u128 {
    if a == 0 {
        0
    } else {
        polyval_pow_chain(a, 127)
    }
}

/// Sum of `rows[i]` over the set bits `i < n` of `v`.
pub open spec fn linear_map(rows: Seq<u128>, v: u128, n: nat) -> u128
    decreases n,
{
    if n == 0 {
        0
    } else {
        let i = (n - 1) as nat;
        let prev = linear_map(rows, v, i);
        if (v >> (i as u128)) & 1 == 1 {
            prev ^ rows[i as int]
        } else {
            prev
        }
    }
}

/// Images of the tower basis elements in the POLYVAL field (Montgomery form).
pub open spec fn tower_to_polyval_rows() -> Seq<u128> {
    seq![
        0xc2000000000000000000000000000001u128,
        0x21a09a4bf26aadcd3eb19c5f1a06b528u128,
        0xe62f1a804db43b94852cef0e61d7353du128,
        0xadcde131ca862a6ba378ea68e992a5b6u128,
        0x5474611d07bdcd1f72e9bdc82ec4fe6cu128,
        0xf9a472d4a4965f4caa3532aa6258c986u128,
        0x10bd76c920260f81877681ed1a50b210u128,
        0xe7f3264523858ca36ef84934fdd225f2u128,
        0x586704bda927015fedb8ddceb7f825d6u128,
        0x552dab8acfd831aeb65f8aaec9cef096u128,
        0xeccdac666a363defde6792e475892fb3u128,
        0x4a621d01701247f6e4a8327e33d95aa2u128,
        0x8ed5002fed1f4b9a9a11840f87149e2du128,
        0x3c65abbd41c759f0302467db5a791e09u128,
        0xc2df68a5949a96b3aa643692e93caaabu128,
        0x4455027df88c165117daf9822eb57383u128,
        0xc50e3a207f91d7cd6dd1e116d55455fbu128,
        0xc89c3920b9b24b755fd08543d8caf5a2u128,
        0xfa583eb935de76a2ec180360b6548830u128,
        0xc4d3d3b9938f3af77800a5cd03690171u128,
        0xe1faff3b895be1e2bec91c0836143b44u128,
        0x256bd50f868b82cf1c83552eeb1cd844u128,
        0x82fd35d590073ae9595cab38e9b59d79u128,
        0x08dadd230bc90e192304a2533cdce9e6u128,
        0xf4400f37acedc7d9502abeff6cead84cu128,
        0x5438d34e2b5b90328cc88b7384deedfbu128,
        0x7d798db71ef80a3e447cd7d1d4a0385du128,
        0xa50d5ef4e33979db8012303dc09cbf35u128,
        0x91c4b5e29de5759e0bb337efbc5b8115u128,
        0xbbb0d4aaba0fab72848f461ed0a4b110u128,
        0x3c9de86b9a306d6d11cc078904076865u128,
        0xb5f43a166aa1f15f99db6d689ca1b370u128,
        0xa26153cb8c150af8243ecbd46378e59eu128,
        0xccaa154bab1dd7aca876f81fe0c950abu128,
        0x4185b7e3ee1dddbc761a6139cdb07755u128,
        0x2c9f95285b7aa574653ed207337325f2u128,
        0xc8ba616ab131bfd242195c4c82d54dbbu128,
        0x2a9b07221a34865faa36a28da1ab1c24u128,
        0x7e6e572804b548a88b92900e0196dd39u128,
        0x4e9060deff44c9ef9882a0015debd575u128,
        0x00a3a4d8c163c95ac7ac9a5b424e1c65u128,
        0xf67c7eb5dde73d96f8f5eecba6033679u128,
        0x54d78d187bbb57d19b536094ba539fdeu128,
        0x76c553699edc5d4a033139975ab7f264u128,
        0x74ae8da43b2f587df3e41bbf5c6be650u128,
        0x8a2941b59774c41acd850aa6098e5fd2u128,
        0x9ddf65660a6f8f3c0058165a063de84cu128,
        0xbb52da733635cc3d1ff02ef96ee64cf3u128,
        0x564032a0d5d3773b7b7ed18bebf1c668u128,
        0xef5c765e64b24b1b00222054ff0040efu128,
        0xade661c18acba6233d484726e6249beeu128,
        0x9939ba35c969cdeea29f2ef849c2d170u128,
        0x2b100b39761d4f23eb42d05b80174ce2u128,
        0xfbc25b179830f9eec765bd6229125d6cu128,
        0xb58e089ebe7ad0b2698e30184ab93141u128,
        0x53874933a148be94d12025afa876234cu128,
        0x41bbc7902188f4e9880f1d81fa580ffbu128,
        0xea4199916a5d127d25da1fe777b2dcbbu128,
        0xe7bc816547efbe987d9359ee0de0c287u128,
        0x02e0f1f67e7139835892155a7addd9dau128,
        0xdc6beb6eade9f875e74955ca950af235u128,
        0x786d616edeadfa356453a78d8f103230u128,
        0xe84e70191accaddac8034da936737487u128,
        0x012b8669ff3f451e5363edfddd37fb3cu128,
        0x756209f0893e96877833c194b9c943a0u128,
        0xb2ac9efc9a1891369f63bd1e0d1439acu128,
        0x4de88e9a5bbb4c3df650cc3994c3d2d8u128,
        0x8de7b5c85c07f3359849e7c85e426b54u128,
        0xcadd54ae6a7e72a4f184e6761cf226d4u128,
        0xcdb182fb8d95496f55b5f3952f81bc30u128,
        0x40013bc3c81722753a05bb2aca01a02eu128,
        0x704e7ce55e9033883e97351591adf18au128,
        0xf330cd9a74a5e884988c3f36567d26f4u128,
        0x18f4535304c0d74ac3bdf09d78cbde50u128,
        0xfe739c97fc26bed28885b838405c7e7eu128,
        0x492479260f2dcd8af980c3d74b3ec345u128,
        0x96b6440a34de0aad4ea2f744396691afu128,
        0x98355d1b4f7cfb03960a59aa564a7a26u128,
        0x2703fda0532095ca8b1886b12ca37d64u128,
        0x59c9dabe49bebf6b468c3c120f142822u128,
        0xf8f3c35c671bac841b14381a592e6cddu128,
        0xd7b888791bd83b13d80d2e9324894861u128,
        0x113ab0405354dd1c5aab9658137fa73fu128,
        0xae56192d5e9c309e461f797121b28ce6u128,
        0xb7927ec7a84c2e04811a6dac6b997783u128,
        0x9e2f8d67fc600703ba9b4189ce751cb4u128,
        0x574e95df2d8bb9e2c8fc29729eb723cau128,
        0x38bc6fc47739c06cd9fa20f9a5088f26u128,
        0x69d3b9b1d9483174b3c38d8f95ce7a5fu128,
        0xd6e4bb147cc82b6e90e27e882f18640du128,
        0x027338db641804d985cd9fece12f7adcu128,
        0x523cb73968169ccce76f523928c4364eu128,
        0xcdcf898117f927208a11b0dcc941f2f6u128,
        0xc908287814c8cba67f7892fec7a5b217u128,
        0x92b99988bb26215d104968d4cbbb285au128,
        0x4dbca8fd835d00ea4b95692534ef5068u128,
        0xcd8b92c8a6e0e65e167a2b851f32fd9cu128,
        0xc3473dfda9f97d6ac1e2d544628e7845u128,
        0x0260e7badc64dbfde0dc39a240365722u128,
        0x3966125b40fe2bca9719c80e41953868u128,
        0xac0211506eda3cba57b709a360d4a2c7u128,
        0x0e4f0e47d02fedd15b337fefa219c52bu128,
        0x1d5907ccdc659f7aace675511f754ee3u128,
        0x4ad5b368eaddc4bb097284863b2a5b6eu128,
        0x2eae07273b8c4fc5cef553a4a46cde5bu128,
        0x096a310e7b1e3a3179d4a3b5d8dd9396u128,
        0x8c81362eeb1656a91dde08d05018a353u128,
        0x387e59e44cc0d53fecf7f057b6fdba0bu128,
        0x9d29670bbd0e8051ac82d91ca97561d6u128,
        0xaf1310d0f5cac4e89714e48065be74a4u128,
        0x9b684a3865c2b59c411d14182a36fb6bu128,
        0x3e7de163516ffdcaca22b4e848340fbeu128,
        0x3c37dbe331de4b0dc2f5db315d5e7fdau128,
        0x19e7f4b53ff86990e3d5a1c40c3769a0u128,
        0x56469ab32b2b82e8cc93fdb1b14a4775u128,
        0x9c01cefde47816300d8ad49d260bb71bu128,
        0x6100101b8cebde7381366fec1e4e52c0u128,
        0xa28d30c3cbd8b69632143fa65158ee4fu128,
        0x3db7a902ec509e58151c45f71eee6368u128,
        0x42d5a505e8ab70097107d37d79ebbabau128,
        0xe47b83247cb2b162c7d6d15c84cca8ceu128,
        0x076caf0e23541c753e4c87ff505737a5u128,
        0x590a8d1cdbd17ae83980f5d1d3b84a89u128,
        0x77d649ff61a7cd0da53497edd34c4204u128,
        0xefbe0c34eeab379ea4a8feed84fd3993u128,
        0x90540cf7957a8a3051629cdde777f968u128,
        0x8749050496dd288244c49c70aa92831fu128,
        0x0fc80b1d600406b2370368d94947961au128,
    ]
}

/// Images of the POLYVAL basis bits (Montgomery form) in the tower field.
pub open spec fn polyval_to_tower_rows() -> Seq<u128> {
    seq![
        0x66e1d645d7eb87dca8fc4d30a32dadccu128,
        0x53ca87ba77172fd8c5675d78c59c1901u128,
        0x1a9cf63d31827dcda15acb755a948567u128,
        0xa8f28bdf6d29cee2474b0401a99f6c0au128,
        0x4eefa9efe87ed19c06b39ca9799c8d73u128,
        0x06ec578f505abf1e9885a6b2bc494f3eu128,
        0x70ecdfe1f601f8509a96d3fb9cd3348au128,
        0xcb0d16fc7f13733deb25f618fc3faf28u128,
        0x4e9a97aa2c84139ffcb578115fcbef3cu128,
        0xc6de6210afe8c6bd9a441bffe19219adu128,
        0x73e3e8a7c59748601be5bf1e30c488d3u128,
        0x1f6d67e2e64bd6c4b39e7f4bb37dce9cu128,
        0xc34135d567eada885f5095b4c155f3b5u128,
        0x23f165958d59a55e4790b8e2e37330e4u128,
        0x4f2be978f16908e405b88802add08d17u128,
        0x6442b00f5bbf4009907936513c3a7d45u128,
        0xac63f0397d911a7a5d61b9f18137026fu128,
        0x8e70543ae0e43313edf07cbc6698e144u128,
        0xcb417a646d59f652aa5a07984066d026u128,
        0xf028de8dd616318735bd8f76de7bb84eu128,
        0x2e03a12472d21599f15b4bcaa9bf186cu128,
        0x54a376cc03e5b2cfa27d8e48d1b9ca76u128,
        0xd22894c253031b1b201b87da07cb58aeu128,
        0x6bc1416afea6308ff77d902dd5d2a563u128,
        0x9958ecd28adbebf850055f8ac3095121u128,
        0x595a1b37062233d7e6bb6f54c227fb91u128,
        0x41ffcfcdda4583c4f671558ee315d809u128,
        0x780c2490f3e5cb4763e982ec4b3e6ea2u128,
        0xf7a450b35931fa76722a6b9037b6db34u128,
        0xe21991100e84821328592772430ad07eu128,
        0x360d4079f62863cc60c65ec87d6f9277u128,
        0xd898bfa0b076cc4eaca590e7a60dbe92u128,
        0xcaacddd5e114fe5c2e1647fc34b549bfu128,
        0x3042e34911c28e90617776ddb2d3f888u128,
        0x3728a3b0da53cdfecfd8455b13cb9b14u128,
        0x2f2eb3d5bc7b2c48a7c643bffbddc6b2u128,
        0x3b71a5c04010c0aa501b04302706b908u128,
        0x0701845b090e79bb9be54df766e48c51u128,
        0x1e9eac7bf45b14c8db06fcfff7408f78u128,
        0x6b1b8e39a339423d0eb3bef69eee8b0bu128,
        0x8b06616385967df95d3a99cff1edcf0au128,
        0x5d921137890a3ded58e1dd1a51fe6a30u128,
        0x828ed6fba42805b2628b705d38121accu128,
        0x9b7a95220e9d5b0ff70ecb6116cabd81u128,
        0x0eb9055cb11711ed047f136cab751c88u128,
        0xd6f590777c17a6d0ca451290f7d5c78au128,
        0x401a922a6461fbe691f910cb0893e71fu128,
        0x15a549308bc53902c927ebad9ed253f7u128,
        0x45dccafc72a584480f340a43f11a1b84u128,
        0x19d2a2c057d60656e6d3e20451335d5bu128,
        0x035af143a5827a0f99197c8b9a811454u128,
        0x7ee35d174ad7cc692191fd0e013f163au128,
        0xc4c0401d841f965c9599fac8831effa9u128,
        0x63e809a843fc04f84acfca3fc5630691u128,
        0xdb2f3301594e3de49fb7d78e2d6643c4u128,
        0x1b31772535984ef93d709319cc130a7cu128,
        0x036dc9c884cd6d6c918071b62a0593f3u128,
        0x4700cd0e81c88045132360b078027103u128,
        0xdfa3f35eb236ea63b0350e17ed2d625du128,
        0xf0fd7c7760099f1ac28be91822978e15u128,
        0x852a1eba3ad160e95034e9eed1f21205u128,
        0x4a07dd461892df45ca9efee1701763c3u128,
        0xadbbaa0add4c82fe85fd61b42f707384u128,
        0x5c63d0673f33c0f2c231db13f0e15600u128,
        0x24ddc1516501135626e0e794dd4b3076u128,
        0xb60c601bbf72924e38afd02d201fb05bu128,
        0x2ef68918f416caca84334bcf70649aebu128,
        0x0b72a3124c504bcad815534c707343f2u128,
        0xcfd8b2076040c43d5d396f8523d80fe0u128,
        0x098d9daf64154a63504192bb27cc65e1u128,
        0x3ae44070642e6720283621f8fb6a6704u128,
        0x19cd9b2843d0ff936bfe2b373f47fd05u128,
        0x451e2e4159c78e65db10450431d26122u128,
        0x797b753e29b9d0e9423b36807c70f3aeu128,
        0xa8d0e8ba9bb634f6ea30600915664e22u128,
        0xdf8c74bbd66f86809c504cb944475b0au128,
        0x32831a457ced3a417a5a94d498128018u128,
        0x1aca728985936a6147119b9b5f00350eu128,
        0x6f436d64b4ee1a556b66764ed05bb1dbu128,
        0x25930eaed3fd982915e483cb21e5a1a2u128,
        0x21735f5eb346e56006bf1d7e151780abu128,
        0x55fc6f607f10e17f805eb16d7bd5345cu128,
        0x4b4d289591f878114965292af4aeb57eu128,
        0x30608bc7444bcbaff67998c1883c1cf3u128,
        0xa12a72abe4152e4a657c6e6395404343u128,
        0x7579186d4e0959dec73f9cd68fb0e2fbu128,
        0xb5560ce63f7894cc965c822892b7bfdau128,
        0x6b06d7165072861eba63d9fd645995d7u128,
        0x359f439f5ec9107dde3c8ef8f9bf4e29u128,
        0xcbfe7985c6006a46105821cd8b55b06bu128,
        0x2110b3b51f5397ef1129fb9076474061u128,
        0x1928478b6f3275c944c33b275c388c47u128,
        0x23f978e6a0a54802437111aa4652421au128,
        0xe8c526bf924dc5cd1dd32dbedd310f5bu128,
        0xa0ac29f901f79ed5f43c73d22a05c8e4u128,
        0x55e0871c6e97408f47f4635b747145eau128,
        0x6c2114c3381f53667d3c2dfefd1ebcb3u128,
        0x42d23c18722fbd58863c3aceaaa3eef7u128,
        0xbb0821ab38d5de133838f8408a72fdf1u128,
        0x035d7239054762b131fa387773bb9153u128,
        0x8fa898aafe8b154f9ab652e8979139e7u128,
        0x6a383e5cd4a16923c658193f16cb726cu128,
        0x9948caa8c6cefb0182022f32ae3f68b9u128,
        0x8d2a8decf9855bd4df7bac577ed73b44u128,
        0x09c7b8300f0f984259d548c5aa959879u128,
        0x92e16d2d24e070efdca8b8e134047afcu128,
        0x47d8621457f4118aaf24877fb5031512u128,
        0x25576941a55f0a0c19583a966a85667fu128,
        0xb113cad79cd35f2e83fda3bc6285a8dcu128,
        0xc76968eecb2748d0c3e6318431ffe580u128,
        0x7211122aa7e7f6fe39e6618395b68416u128,
        0x88463599bf7d3e92f450d00a45146d11u128,
        0x6e12b7d5adf95da33bbb7f79a18ee123u128,
        0xe0a98ac4025bc568eaca7e7b7280ff16u128,
        0xc13fc79f6c35048df274057ac892ff77u128,
        0x93c1a3145d4e47dee39cae4de47eb505u128,
        0x780064be3036df98f1e5d7c53bdbd52bu128,
        0x48c467b5cec265628b709172ecaff561u128,
        0x5bbbab77ce5552ff7682094560524a7eu128,
        0x551537ef6048831fb128fec4e4a23a63u128,
        0xe7ef397fcc095ead439317a13568b284u128,
        0xbc5d2927eac0a720f9d75d62d92c6332u128,
        0x3bfeb420021f93e9b2bc992b5b59e61eu128,
        0xc651dc438e2f1bc64af1b7307b574ed9u128,
        0xbfe0a17ee2b777542a1ddb55413a4e43u128,
        0xa062da2427df3d1a7dfc01c05d732a32u128,
        0x1e4889fd72b70ecf93417ba0b085e1e8u128,
        0xc4f4769f4f9c2e33c26a6bf2ca842f17u128,
    ]
}

fn tower_to_polyval_table() -> (r: Vec<u128>)
    ensures
        r@ == tower_to_polyval_rows(),
{
    let r: Vec<u128> = vec![
        0xc2000000000000000000000000000001u128,
        0x21a09a4bf26aadcd3eb19c5f1a06b528u128,
        0xe62f1a804db43b94852cef0e61d7353du128,
        0xadcde131ca862a6ba378ea68e992a5b6u128,
        0x5474611d07bdcd1f72e9bdc82ec4fe6cu128,
        0xf9a472d4a4965f4caa3532aa6258c986u128,
        0x10bd76c920260f81877681ed1a50b210u128,
        0xe7f3264523858ca36ef84934fdd225f2u128,
        0x586704bda927015fedb8ddceb7f825d6u128,
        0x552dab8acfd831aeb65f8aaec9cef096u128,
        0xeccdac666a363defde6792e475892fb3u128,
        0x4a621d01701247f6e4a8327e33d95aa2u128,
        0x8ed5002fed1f4b9a9a11840f87149e2du128,
        0x3c65abbd41c759f0302467db5a791e09u128,
        0xc2df68a5949a96b3aa643692e93caaabu128,
        0x4455027df88c165117daf9822eb57383u128,
        0xc50e3a207f91d7cd6dd1e116d55455fbu128,
        0xc89c3920b9b24b755fd08543d8caf5a2u128,
        0xfa583eb935de76a2ec180360b6548830u128,
        0xc4d3d3b9938f3af77800a5cd03690171u128,
        0xe1faff3b895be1e2bec91c0836143b44u128,
        0x256bd50f868b82cf1c83552eeb1cd844u128,
        0x82fd35d590073ae9595cab38e9b59d79u128,
        0x08dadd230bc90e192304a2533cdce9e6u128,
        0xf4400f37acedc7d9502abeff6cead84cu128,
        0x5438d34e2b5b90328cc88b7384deedfbu128,
        0x7d798db71ef80a3e447cd7d1d4a0385du128,
        0xa50d5ef4e33979db8012303dc09cbf35u128,
        0x91c4b5e29de5759e0bb337efbc5b8115u128,
        0xbbb0d4aaba0fab72848f461ed0a4b110u128,
        0x3c9de86b9a306d6d11cc078904076865u128,
        0xb5f43a166aa1f15f99db6d689ca1b370u128,
        0xa26153cb8c150af8243ecbd46378e59eu128,
        0xccaa154bab1dd7aca876f81fe0c950abu128,
        0x4185b7e3ee1dddbc761a6139cdb07755u128,
        0x2c9f95285b7aa574653ed207337325f2u128,
        0xc8ba616ab131bfd242195c4c82d54dbbu128,
        0x2a9b07221a34865faa36a28da1ab1c24u128,
        0x7e6e572804b548a88b92900e0196dd39u128,
        0x4e9060deff44c9ef9882a0015debd575u128,
        0x00a3a4d8c163c95ac7ac9a5b424e1c65u128,
        0xf67c7eb5dde73d96f8f5eecba6033679u128,
        0x54d78d187bbb57d19b536094ba539fdeu128,
        0x76c553699edc5d4a033139975ab7f264u128,
        0x74ae8da43b2f587df3e41bbf5c6be650u128,
        0x8a2941b59774c41acd850aa6098e5fd2u128,
        0x9ddf65660a6f8f3c0058165a063de84cu128,
        0xbb52da733635cc3d1ff02ef96ee64cf3u128,
        0x564032a0d5d3773b7b7ed18bebf1c668u128,
        0xef5c765e64b24b1b00222054ff0040efu128,
        0xade661c18acba6233d484726e6249beeu128,
        0x9939ba35c969cdeea29f2ef849c2d170u128,
        0x2b100b39761d4f23eb42d05b80174ce2u128,
        0xfbc25b179830f9eec765bd6229125d6cu128,
        0xb58e089ebe7ad0b2698e30184ab93141u128,
        0x53874933a148be94d12025afa876234cu128,
        0x41bbc7902188f4e9880f1d81fa580ffbu128,
        0xea4199916a5d127d25da1fe777b2dcbbu128,
        0xe7bc816547efbe987d9359ee0de0c287u128,
        0x02e0f1f67e7139835892155a7addd9dau128,
        0xdc6beb6eade9f875e74955ca950af235u128,
        0x786d616edeadfa356453a78d8f103230u128,
        0xe84e70191accaddac8034da936737487u128,
        0x012b8669ff3f451e5363edfddd37fb3cu128,
        0x756209f0893e96877833c194b9c943a0u128,
        0xb2ac9efc9a1891369f63bd1e0d1439acu128,
        0x4de88e9a5bbb4c3df650cc3994c3d2d8u128,
        0x8de7b5c85c07f3359849e7c85e426b54u128,
        0xcadd54ae6a7e72a4f184e6761cf226d4u128,
        0xcdb182fb8d95496f55b5f3952f81bc30u128,
        0x40013bc3c81722753a05bb2aca01a02eu128,
        0x704e7ce55e9033883e97351591adf18au128,
        0xf330cd9a74a5e884988c3f36567d26f4u128,
        0x18f4535304c0d74ac3bdf09d78cbde50u128,
        0xfe739c97fc26bed28885b838405c7e7eu128,
        0x492479260f2dcd8af980c3d74b3ec345u128,
        0x96b6440a34de0aad4ea2f744396691afu128,
        0x98355d1b4f7cfb03960a59aa564a7a26u128,
        0x2703fda0532095ca8b1886b12ca37d64u128,
        0x59c9dabe49bebf6b468c3c120f142822u128,
        0xf8f3c35c671bac841b14381a592e6cddu128,
        0xd7b888791bd83b13d80d2e9324894861u128,
        0x113ab0405354dd1c5aab9658137fa73fu128,
        0xae56192d5e9c309e461f797121b28ce6u128,
        0xb7927ec7a84c2e04811a6dac6b997783u128,
        0x9e2f8d67fc600703ba9b4189ce751cb4u128,
        0x574e95df2d8bb9e2c8fc29729eb723cau128,
        0x38bc6fc47739c06cd9fa20f9a5088f26u128,
        0x69d3b9b1d9483174b3c38d8f95ce7a5fu128,
        0xd6e4bb147cc82b6e90e27e882f18640du128,
        0x027338db641804d985cd9fece12f7adcu128,
        0x523cb73968169ccce76f523928c4364eu128,
        0xcdcf898117f927208a11b0dcc941f2f6u128,
        0xc908287814c8cba67f7892fec7a5b217u128,
        0x92b99988bb26215d104968d4cbbb285au128,
        0x4dbca8fd835d00ea4b95692534ef5068u128,
        0xcd8b92c8a6e0e65e167a2b851f32fd9cu128,
        0xc3473dfda9f97d6ac1e2d544628e7845u128,
        0x0260e7badc64dbfde0dc39a240365722u128,
        0x3966125b40fe2bca9719c80e41953868u128,
        0xac0211506eda3cba57b709a360d4a2c7u128,
        0x0e4f0e47d02fedd15b337fefa219c52bu128,
        0x1d5907ccdc659f7aace675511f754ee3u128,
        0x4ad5b368eaddc4bb097284863b2a5b6eu128,
        0x2eae07273b8c4fc5cef553a4a46cde5bu128,
        0x096a310e7b1e3a3179d4a3b5d8dd9396u128,
        0x8c81362eeb1656a91dde08d05018a353u128,
        0x387e59e44cc0d53fecf7f057b6fdba0bu128,
        0x9d29670bbd0e8051ac82d91ca97561d6u128,
        0xaf1310d0f5cac4e89714e48065be74a4u128,
        0x9b684a3865c2b59c411d14182a36fb6bu128,
        0x3e7de163516ffdcaca22b4e848340fbeu128,
        0x3c37dbe331de4b0dc2f5db315d5e7fdau128,
        0x19e7f4b53ff86990e3d5a1c40c3769a0u128,
        0x56469ab32b2b82e8cc93fdb1b14a4775u128,
        0x9c01cefde47816300d8ad49d260bb71bu128,
        0x6100101b8cebde7381366fec1e4e52c0u128,
        0xa28d30c3cbd8b69632143fa65158ee4fu128,
        0x3db7a902ec509e58151c45f71eee6368u128,
        0x42d5a505e8ab70097107d37d79ebbabau128,
        0xe47b83247cb2b162c7d6d15c84cca8ceu128,
        0x076caf0e23541c753e4c87ff505737a5u128,
        0x590a8d1cdbd17ae83980f5d1d3b84a89u128,
        0x77d649ff61a7cd0da53497edd34c4204u128,
        0xefbe0c34eeab379ea4a8feed84fd3993u128,
        0x90540cf7957a8a3051629cdde777f968u128,
        0x8749050496dd288244c49c70aa92831fu128,
        0x0fc80b1d600406b2370368d94947961au128,
    ];
    assert(r@ =~= tower_to_polyval_rows());
    r
}

fn polyval_to_tower_table() -> (r: Vec<u128>)
    ensures
        r@ == polyval_to_tower_rows(),
{
    let r: Vec<u128> = vec![
        0x66e1d645d7eb87dca8fc4d30a32dadccu128,
        0x53ca87ba77172fd8c5675d78c59c1901u128,
        0x1a9cf63d31827dcda15acb755a948567u128,
        0xa8f28bdf6d29cee2474b0401a99f6c0au128,
        0x4eefa9efe87ed19c06b39ca9799c8d73u128,
        0x06ec578f505abf1e9885a6b2bc494f3eu128,
        0x70ecdfe1f601f8509a96d3fb9cd3348au128,
        0xcb0d16fc7f13733deb25f618fc3faf28u128,
        0x4e9a97aa2c84139ffcb578115fcbef3cu128,
        0xc6de6210afe8c6bd9a441bffe19219adu128,
        0x73e3e8a7c59748601be5bf1e30c488d3u128,
        0x1f6d67e2e64bd6c4b39e7f4bb37dce9cu128,
        0xc34135d567eada885f5095b4c155f3b5u128,
        0x23f165958d59a55e4790b8e2e37330e4u128,
        0x4f2be978f16908e405b88802add08d17u128,
        0x6442b00f5bbf4009907936513c3a7d45u128,
        0xac63f0397d911a7a5d61b9f18137026fu128,
        0x8e70543ae0e43313edf07cbc6698e144u128,
        0xcb417a646d59f652aa5a07984066d026u128,
        0xf028de8dd616318735bd8f76de7bb84eu128,
        0x2e03a12472d21599f15b4bcaa9bf186cu128,
        0x54a376cc03e5b2cfa27d8e48d1b9ca76u128,
        0xd22894c253031b1b201b87da07cb58aeu128,
        0x6bc1416afea6308ff77d902dd5d2a563u128,
        0x9958ecd28adbebf850055f8ac3095121u128,
        0x595a1b37062233d7e6bb6f54c227fb91u128,
        0x41ffcfcdda4583c4f671558ee315d809u128,
        0x780c2490f3e5cb4763e982ec4b3e6ea2u128,
        0xf7a450b35931fa76722a6b9037b6db34u128,
        0xe21991100e84821328592772430ad07eu128,
        0x360d4079f62863cc60c65ec87d6f9277u128,
        0xd898bfa0b076cc4eaca590e7a60dbe92u128,
        0xcaacddd5e114fe5c2e1647fc34b549bfu128,
        0x3042e34911c28e90617776ddb2d3f888u128,
        0x3728a3b0da53cdfecfd8455b13cb9b14u128,
        0x2f2eb3d5bc7b2c48a7c643bffbddc6b2u128,
        0x3b71a5c04010c0aa501b04302706b908u128,
        0x0701845b090e79bb9be54df766e48c51u128,
        0x1e9eac7bf45b14c8db06fcfff7408f78u128,
        0x6b1b8e39a339423d0eb3bef69eee8b0bu128,
        0x8b06616385967df95d3a99cff1edcf0au128,
        0x5d921137890a3ded58e1dd1a51fe6a30u128,
        0x828ed6fba42805b2628b705d38121accu128,
        0x9b7a95220e9d5b0ff70ecb6116cabd81u128,
        0x0eb9055cb11711ed047f136cab751c88u128,
        0xd6f590777c17a6d0ca451290f7d5c78au128,
        0x401a922a6461fbe691f910cb0893e71fu128,
        0x15a549308bc53902c927ebad9ed253f7u128,
        0x45dccafc72a584480f340a43f11a1b84u128,
        0x19d2a2c057d60656e6d3e20451335d5bu128,
        0x035af143a5827a0f99197c8b9a811454u128,
        0x7ee35d174ad7cc692191fd0e013f163au128,
        0xc4c0401d841f965c9599fac8831effa9u128,
        0x63e809a843fc04f84acfca3fc5630691u128,
        0xdb2f3301594e3de49fb7d78e2d6643c4u128,
        0x1b31772535984ef93d709319cc130a7cu128,
        0x036dc9c884cd6d6c918071b62a0593f3u128,
        0x4700cd0e81c88045132360b078027103u128,
        0xdfa3f35eb236ea63b0350e17ed2d625du128,
        0xf0fd7c7760099f1ac28be91822978e15u128,
        0x852a1eba3ad160e95034e9eed1f21205u128,
        0x4a07dd461892df45ca9efee1701763c3u128,
        0xadbbaa0add4c82fe85fd61b42f707384u128,
        0x5c63d0673f33c0f2c231db13f0e15600u128,
        0x24ddc1516501135626e0e794dd4b3076u128,
        0xb60c601bbf72924e38afd02d201fb05bu128,
        0x2ef68918f416caca84334bcf70649aebu128,
        0x0b72a3124c504bcad815534c707343f2u128,
        0xcfd8b2076040c43d5d396f8523d80fe0u128,
        0x098d9daf64154a63504192bb27cc65e1u128,
        0x3ae44070642e6720283621f8fb6a6704u128,
        0x19cd9b2843d0ff936bfe2b373f47fd05u128,
        0x451e2e4159c78e65db10450431d26122u128,
        0x797b753e29b9d0e9423b36807c70f3aeu128,
        0xa8d0e8ba9bb634f6ea30600915664e22u128,
        0xdf8c74bbd66f86809c504cb944475b0au128,
        0x32831a457ced3a417a5a94d498128018u128,
        0x1aca728985936a6147119b9b5f00350eu128,
        0x6f436d64b4ee1a556b66764ed05bb1dbu128,
        0x25930eaed3fd982915e483cb21e5a1a2u128,
        0x21735f5eb346e56006bf1d7e151780abu128,
        0x55fc6f607f10e17f805eb16d7bd5345cu128,
        0x4b4d289591f878114965292af4aeb57eu128,
        0x30608bc7444bcbaff67998c1883c1cf3u128,
        0xa12a72abe4152e4a657c6e6395404343u128,
        0x7579186d4e0959dec73f9cd68fb0e2fbu128,
        0xb5560ce63f7894cc965c822892b7bfdau128,
        0x6b06d7165072861eba63d9fd645995d7u128,
        0x359f439f5ec9107dde3c8ef8f9bf4e29u128,
        0xcbfe7985c6006a46105821cd8b55b06bu128,
        0x2110b3b51f5397ef1129fb9076474061u128,
        0x1928478b6f3275c944c33b275c388c47u128,
        0x23f978e6a0a54802437111aa4652421au128,
        0xe8c526bf924dc5cd1dd32dbedd310f5bu128,
        0xa0ac29f901f79ed5f43c73d22a05c8e4u128,
        0x55e0871c6e97408f47f4635b747145eau128,
        0x6c2114c3381f53667d3c2dfefd1ebcb3u128,
        0x42d23c18722fbd58863c3aceaaa3eef7u128,
        0xbb0821ab38d5de133838f8408a72fdf1u128,
        0x035d7239054762b131fa387773bb9153u128,
        0x8fa898aafe8b154f9ab652e8979139e7u128,
        0x6a383e5cd4a16923c658193f16cb726cu128,
        0x9948caa8c6cefb0182022f32ae3f68b9u128,
        0x8d2a8decf9855bd4df7bac577ed73b44u128,
        0x09c7b8300f0f984259d548c5aa959879u128,
        0x92e16d2d24e070efdca8b8e134047afcu128,
        0x47d8621457f4118aaf24877fb5031512u128,
        0x25576941a55f0a0c19583a966a85667fu128,
        0xb113cad79cd35f2e83fda3bc6285a8dcu128,
        0xc76968eecb2748d0c3e6318431ffe580u128,
        0x7211122aa7e7f6fe39e6618395b68416u128,
        0x88463599bf7d3e92f450d00a45146d11u128,
        0x6e12b7d5adf95da33bbb7f79a18ee123u128,
        0xe0a98ac4025bc568eaca7e7b7280ff16u128,
        0xc13fc79f6c35048df274057ac892ff77u128,
        0x93c1a3145d4e47dee39cae4de47eb505u128,
        0x780064be3036df98f1e5d7c53bdbd52bu128,
        0x48c467b5cec265628b709172ecaff561u128,
        0x5bbbab77ce5552ff7682094560524a7eu128,
        0x551537ef6048831fb128fec4e4a23a63u128,
        0xe7ef397fcc095ead439317a13568b284u128,
        0xbc5d2927eac0a720f9d75d62d92c6332u128,
        0x3bfeb420021f93e9b2bc992b5b59e61eu128,
        0xc651dc438e2f1bc64af1b7307b574ed9u128,
        0xbfe0a17ee2b777542a1ddb55413a4e43u128,
        0xa062da2427df3d1a7dfc01c05d732a32u128,
        0x1e4889fd72b70ecf93417ba0b085e1e8u128,
        0xc4f4769f4f9c2e33c26a6bf2ca842f17u128,
    ];
    assert(r@ =~= polyval_to_tower_rows());
    r
}

/// Carry-less product of two 64-bit words.
fn clmul64_exec(a: u64, b: u64) -> (r: u128)
    ensures
        r == clmul64(a, b),
{
    let mut acc: u128 = 0;
    let mut i: u64 = 0;
    while i < 64
        invariant
            i <= 64,
            acc == clmul_upto(a, b, i as nat),
        decreases 64 - i,
    {
        if (b >> i) & 1 == 1 {
            acc = acc ^ ((a as u128) << (i as u128));
        }
        i = i + 1;
    }
    acc
}

fn montgomery_multiply(a: u128, b: u128) -> (r: u128)
    ensures
        r == polyval_mul(a, b),
{
    let a0 = a as u64;
    let a1 = (a >> 64u128) as u64;
    let b0 = b as u64;
    let b1 = (b >> 64u128) as u64;
    let t0 = clmul64_exec(a0, b0);
    let t1 = clmul64_exec(a1, b1);
    let t2 = clmul64_exec(a0 ^ a1, b0 ^ b1) ^ t0 ^ t1;
    let w0 = t0 as u64;
    let w1 = ((t0 >> 64u128) as u64) ^ (t2 as u64);
    let w2 = (t1 as u64) ^ ((t2 >> 64u128) as u64);
    let w3 = (t1 >> 64u128) as u64;
    let v2 = w2 ^ w0 ^ (w0 >> 1u64) ^ (w0 >> 2u64) ^ (w0 >> 7u64);
    let v1 = w1 ^ (w0 << 63u64) ^ (w0 << 62u64) ^ (w0 << 57u64);
    let v3 = w3 ^ v1 ^ (v1 >> 1u64) ^ (v1 >> 2u64) ^ (v1 >> 7u64);
    let v2b = v2 ^ (v1 << 63u64) ^ (v1 << 62u64) ^ (v1 << 57u64);
    (v2b as u128) | ((v3 as u128) << 64u128)
}

/// Applies the linear map with the given rows to the bits of `v`.
fn apply_linear_map(rows: &Vec<u128>, v: u128) -> (r: u128)
    requires
        rows@.len() == 128,
    ensures
        r == linear_map(rows@, v, 128),
{
    let mut acc: u128 = 0;
    let mut i: u32 = 0;
    while i < 128
        invariant
            i <= 128,
            rows@.len() == 128,
            acc == linear_map(rows@, v, i as nat),
        decreases 128 - i,
    {
        if (v >> i) & 1 == 1 {
            acc = acc ^ rows[i as usize];
        }
        i = i + 1;
    }
    acc
}

/// Sum of the first `n` elements.
pub open spec fn polyval_sum(values: Seq<BinaryField128bPolyval>, n: nat) -> u128
    decreases n,
{
    if n == 0 {
        0
    } else {
        polyval_sum(values, (n - 1) as nat) ^ values[n - 1].0
    }
}

/// Product of the first `n` elements, from one.
pub open spec fn polyval_product(values: Seq<BinaryField128bPolyval>, n: nat) -> u128
    decreases n,
{
    if n == 0 {
        polyval_one()
    } else {
        polyval_mul(polyval_product(values, (n - 1) as nat), values[n - 1].0)
    }
}

/// An element of GF(2^128) in the POLYVAL basis, stored in Montgomery form.
#[derive(Debug, Clone, Copy, PartialEq, Eq, Structural)]
pub struct BinaryField128bPolyval(pub u128);

impl BinaryField128bPolyval {
    /// The element whose ordinary (non-Montgomery) representation is `value`.
    pub fn new(value: u128) -> (r: Self)
        ensures
            r.0 == polyval_mul(value, 0x1e563df92ea7081b4563df92ea7081b5u128),
    {
        BinaryField128bPolyval(value).to_montgomery()
    }

    /// Multiplies by the Montgomery constant, converting into Montgomery form.
    pub fn to_montgomery(self) -> (r: Self)
        ensures
            r.0 == polyval_mul(self.0, 0x1e563df92ea7081b4563df92ea7081b5u128),
    {
        self.mul(BinaryField128bPolyval(0x1e563df92ea7081b4563df92ea7081b5u128))
    }

    /// Montgomery product with the raw value one, converting out of Montgomery form.
    pub fn from_montgomery(self) -> (r: Self)
        ensures
            r.0 == polyval_mul(self.0, 1),
    {
        self.mul(BinaryField128bPolyval(1))
    }

    pub fn zero() -> (r: Self)
        ensures
            r.0 == 0,
    {
        BinaryField128bPolyval(0)
    }

    pub fn one() -> (r: Self)
        ensures
            r.0 == polyval_one(),
    {
        BinaryField128bPolyval(0xc2000000000000000000000000000001u128)
    }

    /// Field addition: bitwise exclusive or.
    pub fn add(self, rhs: Self) -> (r: Self)
        ensures
            r.0 == self.0 ^ rhs.0,
    {
        BinaryField128bPolyval(self.0 ^ rhs.0)
    }

    /// Field subtraction, equal to addition.
    pub fn sub(self, rhs: Self) -> (r: Self)
        ensures
            r.0 == self.0 ^ rhs.0,
    {
        BinaryField128bPolyval(self.0 ^ rhs.0)
    }

    /// Negation is the identity in characteristic two.
    pub fn neg(self) -> (r: Self)
        ensures
            r == self,
    {
        self
    }

    /// Field multiplication (Montgomery product of the representations).
    pub fn mul(self, rhs: Self) -> (r: Self)
        ensures
            r.0 == polyval_mul(self.0, rhs.0),
    {
        BinaryField128bPolyval(montgomery_multiply(self.0, rhs.0))
    }

    pub fn square(self) -> (r: Self)
        ensures
            r.0 == polyval_mul(self.0, self.0),
    {
        self.mul(self)
    }

    /// The inverse `x^(2^128 - 2)`, or zero for zero.
    pub fn invert_or_zero(self) -> (r: Self)
        ensures
            r.0 == polyval_inv(self.0),
    {
        if self.0 == 0 {
            return self;
        }
        let mut acc = BinaryField128bPolyval::one();
        let mut p = self;
        let mut i: u32 = 0;
        while i < 127
            invariant
                self.0 != 0,
                i <= 127,
                p.0 == polyval_pow2k(self.0, i as nat),
                acc.0 == polyval_pow_chain(self.0, i as nat),
            decreases 127 - i,
        {
            p = p.square();
            acc = acc.mul(p);
            i = i + 1;
        }
        acc
    }

    /// The inverse; `None` for zero.
    pub fn invert(self) -> (r: Option<Self>)
        ensures
            self.0 == 0 <==> r.is_none(),
            r.is_some() ==> r.unwrap().0 == polyval_inv(self.0),
    {
        if self.0 == 0 {
            None
        } else {
            Some(self.invert_or_zero())
        }
    }

    /// The `i`-th basis element over GF(2): `new(1 << i)`.
    pub fn basis(i: usize) -> (r: Result<Self, FieldError>)
        ensures
            i < 128 ==> r == Ok::<Self, FieldError>(
                BinaryField128bPolyval(polyval_mul(1u128 << i, 0x1e563df92ea7081b4563df92ea7081b5u128)),
            ),
            i >= 128 ==> r == Err::<Self, FieldError>(FieldError::ExtensionDegreeMismatch),
    {
        if i >= 128 {
            return Err(FieldError::ExtensionDegreeMismatch);
        }
        Ok(Self::new(1u128 << i))
    }

    /// The element `new(sum of base_elems[i] << i)`.
    pub fn from_bases(base_elems: &Vec<bool>) -> (r: Result<Self, FieldError>)
        ensures
            base_elems@.len() > 128 ==> r == Err::<Self, FieldError>(FieldError::ExtensionDegreeMismatch),
            base_elems@.len() <= 128 ==> r is Ok && exists|v: u128|
                (forall|i: int| 0 <= i < 128 ==> (#[trigger] ((v >> (i as u128)) & 1) == 1) == (i < base_elems@.len() && base_elems@[i]))
                && r.unwrap().0 == polyval_mul(v, 0x1e563df92ea7081b4563df92ea7081b5u128),
    {
        if base_elems.len() > 128 {
            return Err(FieldError::ExtensionDegreeMismatch);
        }
        let mut value: u128 = 0;
        let mut i: usize = 0;
        assert forall|j: int| 0 <= j < 128 implies (#[trigger] ((value >> (j as u128)) & 1) == 1) == (j < i && base_elems@[j]) by {
            let jj = j as u128;
            assert((0u128 >> jj) & 1 == 0) by (bit_vector);
        }
        while i < base_elems.len()
            invariant
                base_elems@.len() <= 128,
                i <= base_elems@.len(),
                forall|j: int| 0 <= j < 128 ==> (#[trigger] ((value >> (j as u128)) & 1) == 1) == (j < i && base_elems@[j]),
            decreases base_elems@.len() - i,
        {
            if base_elems[i] {
                let old_value = value;
                value = value | (1u128 << (i as u128));
                assert forall|j: int| 0 <= j < 128 implies (#[trigger] ((value >> (j as u128)) & 1) == 1) == (j < i + 1 && base_elems@[j]) by {
                    let jj = j as u128;
                    let ii = i as u128;
                    assert(ii < 128 && jj < 128 ==> (((old_value | (1u128 << ii)) >> jj) & 1 == 1) == ((old_value >> jj) & 1 == 1 || jj == ii)) by (bit_vector);
                }
            }
            i = i + 1;
        }
        Ok(Self::new(value))
    }

    /// The bits of the stored (Montgomery) representation, least significant first.
    pub fn iter_bases(&self) -> (r: Vec<bool>)
        ensures
            r@.len() == 128,
            forall|i: int| 0 <= i < 128 ==> #[trigger] r@[i] == ((self.0 >> (i as u128)) & 1 == 1),
    {
        let mut out: Vec<bool> = Vec::new();
        let mut i: u32 = 0;
        while i < 128
            invariant
                i <= 128,
                out@.len() == i,
                forall|j: int| 0 <= j < i ==> #[trigger] out@[j] == ((self.0 >> (j as u128)) & 1 == 1),
            decreases 128 - i,
        {
            out.push((self.0 >> i) & 1 == 1);
            i = i + 1;
        }
        out
    }

    /// Doubling: zero in characteristic two.
    pub fn double(&self) -> (r: Self)
        ensures
            r.0 == 0,
    {
        BinaryField128bPolyval(0)
    }

    /// The subfield embedding of GF(2): one or zero.
    pub fn from_bit(bit: bool) -> (r: Self)
        ensures
            r.0 == if bit { polyval_one() } else { 0 },
    {
        if bit {
            Self::one()
        } else {
            Self::zero()
        }
    }

    /// The element of GF(2) equal to `self`, if there is one.
    pub fn to_bit(&self) -> (r: Option<bool>)
        ensures
            r == if self.0 == 0 {
                Some(false)
            } else if self.0 == polyval_one() {
                Some(true)
            } else {
                None::<bool>
            },
    {
        if self.0 == 0 {
            Some(false)
        } else if self.0 == 0xc2000000000000000000000000000001u128 {
            Some(true)
        } else {
            None
        }
    }

    /// Product with an element of GF(2).
    pub fn mul_bit(&self, bit: bool) -> (r: Self)
        ensures
            r.0 == if bit { self.0 } else { 0 },
    {
        if bit {
            *self
        } else {
            Self::zero()
        }
    }

    /// Sum of the elements.
    pub fn sum(values: &Vec<Self>) -> (r: Self)
        ensures
            r.0 == polyval_sum(values@, values@.len()),
    {
        let mut acc = Self::zero();
        let mut i: usize = 0;
        while i < values.len()
            invariant
                i <= values@.len(),
                acc.0 == polyval_sum(values@, i as nat),
            decreases values@.len() - i,
        {
            acc = acc.add(values[i]);
            i = i + 1;
        }
        acc
    }

    /// Product of the elements, starting from one.
    pub fn product(values: &Vec<Self>) -> (r: Self)
        ensures
            r.0 == polyval_product(values@, values@.len()),
    {
        let mut acc = Self::one();
        let mut i: usize = 0;
        while i < values.len()
            invariant
                i <= values@.len(),
                acc.0 == polyval_product(values@, i as nat),
            decreases values@.len() - i,
        {
            acc = acc.mul(values[i]);
            i = i + 1;
        }
        acc
    }

    /// The image of a tower-field element.
    pub fn from_tower(value: BinaryField128b) -> (r: Self)
        ensures
            r.0 == linear_map(tower_to_polyval_rows(), value.0, 128),
    {
        let rows = tower_to_polyval_table();
        BinaryField128bPolyval(apply_linear_map(&rows, value.0))
    }

    /// The image in the tower field.
    pub fn to_tower(&self) -> (r: BinaryField128b)
        ensures
            r.0 == linear_map(polyval_to_tower_rows(), self.0, 128),
    {
        let rows = polyval_to_tower_table();
        BinaryField128b(apply_linear_map(&rows, self.0))
    }
}

impl BinaryField128b {
    /// The image in the POLYVAL field.
    pub fn to_polyval(&self) -> (r: BinaryField128bPolyval)
        ensures
            r.0 == linear_map(tower_to_polyval_rows(), self.0, 128),
    {
        BinaryField128bPolyval::from_tower(*self)
    }
}

/// Bits of `b` in `[m, n)` that are clear add nothing to the carry-less product.
proof fn lemma_clmul_skip(a: u64, b: u64, m: nat, n: nat)
    requires
        m <= n <= 64,
        forall|i: nat| m <= i < n ==> #[trigger] ((b >> (i as u64)) & 1) == 0,
    ensures
        clmul_upto(a, b, n) == clmul_upto(a, b, m),
    decreases n,
{
    if n > m {
        lemma_clmul_skip(a, b, m, (n - 1) as nat);
        assert(((b >> ((n - 1) as u64)) & 1) == 0);
    }
}

/// `(a << 57) ^ (a << 62) ^ (a << 63)`, the carry-less product with `0xc2 << 56`.
pub open spec fn times_high_one(a: u64) -> u128 {
    ((a as u128) << 57u128) ^ ((a as u128) << 62u128) ^ ((a as u128) << 63u128)
}

proof fn lemma_clmul_by_one_words(a: u64)
    ensures
        clmul_upto(a, 1, 64) == a as u128,
        clmul_upto(a, 0xc200000000000000u64, 64) == times_high_one(a),
        clmul_upto(a, 0xc200000000000001u64, 64) == (a as u128) ^ times_high_one(a),
{
    let h = 0xc200000000000000u64;
    let h1 = 0xc200000000000001u64;
    assert(forall|i: u64| 1 <= i < 64 ==> #[trigger] ((1u64 >> i) & 1) == 0) by (bit_vector);
    assert(forall|i: u64| (i < 57 || (58 <= i < 62)) ==> #[trigger] ((0xc200000000000000u64 >> i) & 1) == 0) by (bit_vector);
    assert(forall|i: u64| ((1 <= i < 57) || (58 <= i < 62)) ==> #[trigger] ((0xc200000000000001u64 >> i) & 1) == 0) by (bit_vector);
    assert((1u64 >> 0u64) & 1 == 1 && (0xc200000000000000u64 >> 57u64) & 1 == 1 && (0xc200000000000000u64 >> 62u64) & 1 == 1
        && (0xc200000000000000u64 >> 63u64) & 1 == 1 && (0xc200000000000001u64 >> 0u64) & 1 == 1
        && (0xc200000000000001u64 >> 57u64) & 1 == 1 && (0xc200000000000001u64 >> 62u64) & 1 == 1
        && (0xc200000000000001u64 >> 63u64) & 1 == 1) by (bit_vector);
    let aa = a as u128;
    assert(0u128 ^ (aa << 0u128) == aa && (0u128 ^ (aa << 57u128)) == aa << 57u128 && ((aa ^ (aa << 57u128)) ^ (aa
        << 62u128)) ^ (aa << 63u128) == aa ^ (((aa << 57u128) ^ (aa << 62u128)) ^ (aa << 63u128))) by (bit_vector);
    lemma_clmul_skip(a, 1, 1, 64);
    assert(clmul_upto(a, 1, 1) == clmul_upto(a, 1, 0) ^ (aa << 0u128));
    lemma_clmul_skip(a, h, 0, 57);
    assert(clmul_upto(a, h, 58) == clmul_upto(a, h, 57) ^ (aa << 57u128));
    lemma_clmul_skip(a, h, 58, 62);
    assert(clmul_upto(a, h, 63) == clmul_upto(a, h, 62) ^ (aa << 62u128));
    assert(clmul_upto(a, h, 64) == clmul_upto(a, h, 63) ^ (aa << 63u128));
    assert(clmul_upto(a, h1, 1) == clmul_upto(a, h1, 0) ^ (aa << 0u128));
    lemma_clmul_skip(a, h1, 1, 57);
    assert(clmul_upto(a, h1, 58) == clmul_upto(a, h1, 57) ^ (aa << 57u128));
    lemma_clmul_skip(a, h1, 58, 62);
    assert(clmul_upto(a, h1, 63) == clmul_upto(a, h1, 62) ^ (aa << 62u128));
    assert(clmul_upto(a, h1, 64) == clmul_upto(a, h1, 63) ^ (aa << 63u128));
}

/// One is the multiplicative identity: `x * 1 == x` in Montgomery form.
pub proof fn lemma_polyval_mul_one(x: u128)
    ensures
        polyval_mul(x, polyval_one()) == x,
{
    let one = polyval_one();
    assert(lo64(one) == 1u64 && hi64(one) == 0xc200000000000000u64 && (1u64 ^ 0xc200000000000000u64)
        == 0xc200000000000001u64) by (bit_vector)
        requires
            one == 0xc2000000000000000000000000000001u128,
    ;
    let a0 = lo64(x);
    let a1 = hi64(x);
    lemma_clmul_by_one_words(a0);
    lemma_clmul_by_one_words(a1);
    lemma_clmul_by_one_words(a0 ^ a1);
    let t0 = a0 as u128;
    let t1 = times_high_one(a1);
    let t2 = ((a0 ^ a1) as u128) ^ times_high_one(a0 ^ a1) ^ t0 ^ t1;
    assert(mont_reduce(lo64(t0), hi64(t0) ^ lo64(t2), lo64(t1) ^ hi64(t2), hi64(t1)) == x) by (bit_vector)
        requires
            a0 == x as u64,
            a1 == (x >> 64u128) as u64,
            t0 == a0 as u128,
            t1 == ((a1 as u128) << 57u128) ^ ((a1 as u128) << 62u128) ^ ((a1 as u128) << 63u128),
            t2 == ((a0 ^ a1) as u128) ^ ((((a0 ^ a1) as u128) << 57u128) ^ (((a0 ^ a1) as u128) << 62u128) ^ (((a0 ^ a1) as u128) << 63u128)) ^ t0 ^ t1,
    ;
}

/// Field laws that hold of the representation: `x + x == 0`, `x * 1 == x`,
/// `invert_or_zero(0) == 0` and `square(x) == x * x` (the last by the
/// contracts of `square` and `mul`).
pub proof fn lemma_polyval_field_laws(x: u128)
    ensures
        x ^ x == 0,
        polyval_mul(x, polyval_one()) == x,
        polyval_inv(0) == 0,
{
    assert(x ^ x == 0) by (bit_vector);
    lemma_polyval_mul_one(x);
}

/// The maps to and from the tower field are additive:
/// `to_tower(a + b) == to_tower(a) + to_tower(b)`, and likewise the other way.
pub proof fn lemma_conversions_additive(a: u128, b: u128)
    ensures
        linear_map(polyval_to_tower_rows(), a ^ b, 128) == linear_map(polyval_to_tower_rows(), a, 128)
            ^ linear_map(polyval_to_tower_rows(), b, 128),
        linear_map(tower_to_polyval_rows(), a ^ b, 128) == linear_map(tower_to_polyval_rows(), a, 128)
            ^ linear_map(tower_to_polyval_rows(), b, 128),
{
    lemma_linear_map_additive(polyval_to_tower_rows(), a, b, 128);
    lemma_linear_map_additive(tower_to_polyval_rows(), a, b, 128);
}

proof fn lemma_linear_map_additive(rows: Seq<u128>, a: u128, b: u128, n: nat)
    requires
        n <= 128,
    ensures
        linear_map(rows, a ^ b, n) == linear_map(rows, a, n) ^ linear_map(rows, b, n),
    decreases n,
{
    if n > 0 {
        let i = (n - 1) as nat;
        lemma_linear_map_additive(rows, a, b, i);
        let ii = i as u128;
        let pa = linear_map(rows, a, i);
        let pb = linear_map(rows, b, i);
        let row = rows[i as int];
        assert(((a ^ b) >> ii) & 1 == 1 <==> (((a >> ii) & 1 == 1) != ((b >> ii) & 1 == 1))) by (bit_vector);
        assert((pa ^ pb) ^ row == (pa ^ row) ^ pb) by (bit_vector);
        assert((pa ^ pb) ^ row == pa ^ (pb ^ row)) by (bit_vector);
        assert((pa ^ row) ^ (pb ^ row) == pa ^ pb) by (bit_vector);
    } else {
        assert(0u128 ^ 0u128 == 0u128) by (bit_vector);
    }
}

} // verus!
