use echoes_of_eternity::api::{verify_transformation, EternityError};
use echoes_of_eternity::errors::PlayerError;
use echoes_of_eternity::params::{ARTIFACTKEYBYTES, SIGNATUREBYTES};
use echoes_of_eternity::sign::{artifact_verify, artifact_verify_stage3, ValidationError};
use echoes_of_eternity::vault::{init_artifact_accounts, ArtifactVerifyArgs, Vault};

const KEY_HEX: [&str; 41] = [
    "69f07c8840ce80024db30939882c3d5bbc9c98b3e31e4513ebd2ca9b4503cdd31005c7431bd174944f503397b45a83a6",
    "26006cc6158155c4d0f63ce47951331a15da7f78a043950bbe3b2fa4934c862004854c042e13b046d3f067aaf3037b6d",
    "f19470cbcb9d4662733aecbe4b31b81d695ed6dfcfdca03bfc42a0d27ecb5a70805271f50a3e20d1069d0a5c6f9e5639",
    "a7b78ebd99e4201c5dd6f4d48af2b588347fd510ce00bb1e16acdc28625ea68f699fbd122b0a2ca815800201613580d8",
    "b02f4cd1e8bba134c2feecc0f55ab60e843d93cb5f72c1adcfcf5d861fb9240beb1ab7f51f5898f31b897b82c5d0065d",
    "69c568f24669490fae9b1a5df99f34376f02c3a65071e339a85ae1c8acc11d81eb8f50ead3d341021f03a9d11486eab3",
    "2777aabce80a1ee0c4b5111a900530e257a88d6cc35256beda8dde6f2e726719d2a9d09efb460c8d661e750f7be0dfdc",
    "2ff4dbd080d6dc7cd75b58a25e05adc016203f95c2e28ce2dd8bdbe30b8ef0abcf8b454e49f8f31a9ba33dd1716502a3",
    "e2c816590bd374b0e171ff63aa2cd18b6101000888ea29f55af88d04f87e261383849992f780084600ef4adb34cd6310",
    "1738e04bef9598f58938bc7494a15e328fa54f021fb28eca52d2b03e6c95b3ba45d59c07f9311b7e1208d2a6c15d6a6c",
    "874312986fe4d24f86d3c8aea7257d245b8f9be8aa45bd5233e71e4d1fd6370380d587c5543349b1b70c0b45054837b7",
    "04b623c72629c1497e968391f2b34e543f968e92846fc7c22d9dbf658b1238964e866b13d52dfbc3223759af6275e207",
    "d044531e100393dac5c1af1bea0e99e7c0d3efdc95622d1f2388a7b38ae27206cdf4d13dd7c2ba8614658cd4bc44ed8b",
    "82043f25efeb82c01c7e61c4b4d40b93681919b5800ff343f2e28281b090eae37a376c7f2c8389dec82f7f76dab08190",
    "7609b8a36a9f1dd86444520a880f50c0bcc0f5133e025a2296f97b26e7dc2fdba1adc0bfb25c910fcb8a15bf2b691646",
    "22506046783dee06d48d3f91320cc02ba2811317e5a447bd073f3e9c63e47d0d56c821e0000393eff097e527c6c1a5bf",
    "ba62b19b3817783af60d442203c62a7bbf36942016cb239f652eb52488b7b193e317b44606e19abb7ee1ea25ff1e1534",
    "21766c036a9387362126c7c60ceb84f7397d3cf6f63f031b69b2581828ca8d992e5d83002f554cf1d3da84eaff9aa0c5",
    "0271ad489dfd881c963b7e32473e397d883f573ca5b4a64ecfe7bcdd98064ac43488d54069fb977620e25da4ee45e998",
    "be05c696d7f98a9a1e70ca9eb368a2b8cbd68b5174f26f23a922e19856f44ea09be245a4f7587b858e88787399b509bc",
    "76cc928e7c6f162ea45632ba48aa52c7043737dba492d0b699de0cece9bbb0d78dc6bdbefe103100285ef61212f09c33",
    "e7b8e1e749db4e7c0d4dded161fb77dbc911ed130b5b41ad55ae91305d0ed26d1d16f5652345f21e08781c2c68bb1278",
    "4310ce5fec9d976799666efe6c7cddd2fc2071ef41cc69cbdabb9c7103a1614a8506a173f961a6ec99a3a114aa057b87",
    "1c7692deed67371ef556fdaa48dac430f6b8faf9826a8fc2399bf573768e3922eef6e9eb49e2b8096c443b467ecece12",
    "7a3a66ceaf961b93262be7b1d24c40cf0e0e27733807c5ea728379d54b14f2ba0b52c236d4c84a3d428df10097db690a",
    "bf94759ced7b9d39a77de8069257335c7ee98e331312df62bdb1c4c98a6ce793b97b4c0b8a78f55616e1d1dbb4f14eef",
    "3648585c9798711c29dcceb71d0be61d8e70512a012c41879414604033c84e4be371c775ec98cb3ebd15a52f0b539bf8",
    "ead2febaea7342009a88d92acb716a4e8e4a2f211a64772034e4b790f02778e6dc7fabb2849a6ad18732b4d203016f4f",
    "672760f5cf698bda612fd93573072efb55a4bac9ad8239bc1509a6dc20bcbf00bc96013808716869634c95ca186533f2",
    "f4a4eb9b8ce1dcd20b52de955e68a30d7cce7867cd2e14292e97fef3cce2cfe31fe48bd28c3a5dc1e92076daa030c608",
    "6cfe04ca01c6b79c42676fc3dbea0c8530e1891470073c6a2faa876567744335eaa8fa73071463a6d7bc61afcf71e0ea",
    "0f718b8027af9703dc8d523f19fe48168ee3eddc85b4ef87ac1882be676a166fc26e45e08a8ff5f19285e3b83f983bf5",
    "64a2031e50571448fcbfdec1271f48953aba2e2e118d55a6699bb4d9d0854b57ea090a460090f78b49194a9b8940e017",
    "49ad971eb51f637340671f27f1d573bbf49cc88dabc7517d0394a5e4f2f5a10e554519b1c362fe0b7280e79d16c4519e",
    "b8daa4d4ca31e8ef665a441f7fb50185a0a8e4792002ed0328e0198a979261bde5ffd799fff0175516c267c6e84fe036",
    "dbd7ff25e26cf2825097a310ef162315484c4ddbfa743177ea5127214de49f5246a73361f9b51d509240a8231f23bd49",
    "e00589c9875b80c35744ff9e166f915d56e8cd9c8ace804f712d943277ba4200e0eb2789bed295d3f2b858c98631a8c6",
    "133ba7c6f802c1f8114e7a8ec59a7169d330fc8058eb649d57d34884ee3aedd88f06a0de88fdaad504916155d94f88b5",
    "41d5d15d37670b51035a45e3872540b0986aa2826fe1588d176aa2bc90d0f45b56c1365fbecdbb9c869d403271e844c2",
    "d976a22279845073ef32d8b75a68266ea6be6ddb742e390cdd3f237f7d3759a4416a6d3f3e749d428aec64a4e2f6890a",
    "43f2e67faaae8060048c6511711e2daa6e7b117f51bc67bb096e22501f46b647",
];

const SIG_HEX: [&str; 69] = [
    "dbc6ce82f30d318aef9f5e23c81445a221532d5d4f81a69ee00fe1d5a4b51aade8f07bfa2de3513599c52df87d302c48",
    "fd803c777d279eef4b3dd39130c9703ed78c89cbd53db6552d2873558cf748673cdd3c8a60d5538d66e5fe6ec2bb896e",
    "8be70005215836497bf953894266065f9249e1d937e8fa86a553240e25c884377fa3a07a0e2643390044bdebf164dd40",
    "52280a5966a58897a7b80d7b7fd96aad8713be9cf2037e70e4bd45c84165a85d7158e6e2940bf6a7e423dd5d79433357",
    "53077500dee3bbf067943232c6cc16e9a96ddca0dc626f0ca675efc080c2df8a4a9a8e425fe60bfde5e720652788e449",
    "bfa05c60ebe3f116aa02b928eea33fd1d693855a93b42dbaed528519cc165fa4a74b42766f61301f2078f4aad10202e7",
    "a1c12c417ce8d2fb842384a8580fc1084c4cea1ae1390bc95cc83d0e5c1cd8fcccc0d27b651cd0a99396e54d127bd036",
    "2362b5f4c3b673d925b05ffbfa2a551d0989a54d46bb5d49214d891c122be60b1abc40dc9dfc799d4d2e5b2861b8bd7b",
    "0e5f80f20e013f579296329d73186333f92248940bfbc77ee255cabdd3fa793716e86c9c83e39e358de9094c7324d13d",
    "98a01a02581d11b4fb422a1f46bb4b961615fda84538d0d8e510c76d308a89f6a5ad4ec72beb74979e100ef0d3d57ae7",
    "201d9c05c90402518fb09430dcfb8e894bac844ac2304304ea84793ceaf24159334c0a859edf91ce35f1a443f6a39fd0",
    "1c990d7b1ad60d31dc9ed202606e1a445f242e51c8b7ecba2e7790768fd356b03bf95a870a66f320ab0d1c350231187b",
    "b9f2cc09aa60da0494c547c7fbc2485e35ba7921fdf8719828888c8709dfc67209e0fc18481589e3b757dfcb0f598c42",
    "6f54ffdcb1adbe674bd69abb24a22692026658b908a57e8ad532647b500d0d0fd99d06fada73faf0ccfbf8639facf308",
    "f746afba3abf442e17adfa5aba3a5127f9e59773f6b827e83a75816dbc16e85c076c4fe4da5b4fab84a8ef3f966a7edd",
    "35121f15c0f9dd559a6dfdab32a9010bf6262b3af914178afef22b857180ca736f2f16ffe2c2dd1de3977934ef0a6f9f",
    "c23accdd1cfa508062893d302b70b289927b6a7aac7c64958828d26e19638d8e01079b09db0fdfac49dedc434dcb0763",
    "7b8f966fa74a8c088d68b1d897e904c3f7f35098e95c64a96c81a74ba9f42a62c5324621f26e30715a4de3fca142d138",
    "d80abd36a6533822bb9495383209137bc949fce5f2ff8e272db0514992b1d6f1581f13c3c2ed162e98953b944728557b",
    "28b7aa0ec2dca97e2fc3fb096569239367dd14b9612b85904c70834114def0bce65b70e17747eb90e9f91efd56a61f20",
    "3952b88d7664cfef49bd4c12ba97b25051faa26c0e039a8f58696f0da1f77fef6b2894dcea67d3f1fe939b03aa840602",
    "4bfff31594cfa69da26411ba95e43e6bf1b6864815dbd44765b526e24447082e683c1a17f71ea511c54fcde272743e9d",
    "4ef0aaac7296e160b6437c3effbc588fa0b45a47245e18d77e9a622d957cbb77e3b3125abe17dbc69c260d21314ec770",
    "b0d25636dcdf57f8b853d1fdbdaae0cd74db5ea36c5a389cb6815248bb61623f01f9d4072e00fd970a42969994b8da77",
    "da40066b7feb9741e2c9a0d772a123b10413d772c6e625d197d23eec5f6034ceee2cb0e1d50155bf553e3962ba2120b6",
    "be3d8abfd121d7be8bea10455cdf832b155aed5d4ddeff94b33726124284b122f6c84b22ae7840ff36374aa35808e717",
    "e596a646cb6586fb79312f692cbfc9149d90fc862db2aba0573ee1ee0d1e9fb43334e88545e2accc8f71d1f587caa278",
    "2be0d27d7d3e183b95ce4d895ffc37f43d4b73895d06817f645fc7af9f568efa9a2c66ec333a272e378e96094160f4b5",
    "a8e7c9e7d625a93dd642cefeb2574d1cd138cbf5aac2ea52aa4cf9911b9dac574173ea4c3a1ec3b5348cc3ecfff02e6f",
    "b8c936b9e5cddb45ebd2e611971873794676330850a3418308198868c7a807d1823f27166e6feb89b1e0df5f5a3eca2a",
    "8980c45fb64e995903523aec56475cadbe5c33d27f8a83d959578558eda7934c43a2ba907ea4197ca98ac20d43f8b059",
    "495423199cf0a74efb713a6ef8a874e1e62b00f49ed2bc8d92828172fb2125443f1a54f7ebb26293102c69fadfe7d96c",
    "4d17062e77f3e4c3b4e7242ef523458a92cf15d6aa908f35b1b47ed66de03ca6c5b2bd1563f18315e6def15de726ba3c",
    "5ca50c13d093f844a63c6dfd75c99234f5669c4a05e94736f9fdcad58bf35ad474c2514d1725db4507e154aa301b8262",
    "acca61186532548b65b203e349d0ab225b46be9070d71523a582ca0467499a52c61af9f8255da4f767ad2b3ee19ef266",
    "bb36e1da5c71d2ef7bacf021cf2c2b26283a3605022c198cd20b53ef63cbd99e1f19ff6b865c85f31bf66ff5515ba616",
    "63e2743fe138656b07e2c2b013a23b6ad9d7bf42f70f4554533610d83e3f53a8cefad4e65381a2cb079279cbe12ab28a",
    "0d5410e511abc88cd352523461a249a60b654185c10e0928fe8a8a65f8ade9619d365a6b13dae7db19fe8f1f5d696b18",
    "9a7569acfab8d8e4340f2449b56b6b2fd700eb61f204a5f392e88729a188bc73582f768f018e873bf1bca00141b9fc0d",
    "7f0a46c43a19682e5a0ef16ad60938be9c198b44e6d0794bb97fbaef3bf77d85067eef6e8581b2f451fefe94c63e0319",
    "a90d742b9b79ae2b2f40895d894b7bb6fbe854719a491eb1c828b1f0953ab36d435953d381cdead0fcbfa75abc336f2a",
    "d7ddcedbff9e53112330ddbeaf880980a4dbd11a0584251703fe39f658bbd44d25700068bd59da9a7ab8a2787a49ed09",
    "99455c6d83e1312bb33151f0a0da85582e91f26d2750e307407c8a3d9960d5f68c9c0cf3f13c241dbacaab3a3bb6c910",
    "52dd07eaf062c9d1170c37de93456185ac601ef5f056819c2d7f0bab94e593794b86c521334d3b3aab1964e38d043faf",
    "a49a7a10f7054bd5df062c45c11c2bb80aaf877e7e6f3ccb79f1baf90ef636d23d977acf6c298a831d8249b698c0fbb0",
    "43fa1b556d37fd1a1479c6fc27692fdde2e437219690fc99089b6ab035f8765b94b177d8a3861a9e5704627d6f45b95a",
    "b0cd1381a28496517f45c498dc270f0286881963fbca9af865361d93e1d27a6a3a6898ae7be0a8823d36dfecd45052d1",
    "6f9007be6341b3642cca1f20d7e38776dc7feacde70670ca3c09237929f3ce6c744af873347e75b5f6eb144c1b155f09",
    "9316130679cd25a84a3ad8b5bfbf46cee061d2cdf5b4d0b08a41076cd37bb87004a3a1f9baa1f91b2a7774cb9cf6d08e",
    "40200585f7bef059602d0d747698b56ac9ea1c78af9f9fef819d64aa0fb3c2bd79c5f7e426370d5b857d273ad95b03e5",
    "f9ab507ff757ca406473070a6f6a857bcbe12095389a18fcc876708e56367532319ab0bb5b74049a56c7da81040fa2f5",
    "de01aa274ae3723a9128c40f45f83020afda5b6f55d635ab46961c23a81408cdfd9db1c0ac8fcdc372086a1256982cf7",
    "e19e309a7cfab8a60fd80b63da9308d1384e0b437f32445df1c85c30c6804d76be07a20b727d46e167bfd116b09b184a",
    "48ef4c07cd690ffe1a3e67ad898d09627e81d99e33990277d216755a76e9f70a22fa6d69fecf10437d695b63b3cba1b6",
    "bf5daf8e804965b59b99e14e666fe1822327052db1df03589e3514fca350988586f31fc6165b73363386a8553f7ab32d",
    "1bd025b6ed5ce81db4721364bc5fe0ac88130e3edf9fb71c20b939f44f0fa5b74d84a749ccd5f68f7b72ff40d23e211c",
    "61ed30b44c83a46d4c4d0b5dae7fb2bdc7fc75a21d6ada8741c6a1e3bf3eb0e86abf2d647df382b583835e7474982d08",
    "e508ffc73b6b7c73a2d51f36fdb5b2f98590bcdebbe8934cd630cf3d5882f69a57608847b86ac710b54299539f18ebf9",
    "35fa2cf3092c64b435a7f82acc5b2bb7bfe5adbeec504af357d6851a64784505281080f57aa205a3d4eb60b5273991e7",
    "d22cb606079e8d26bd8f8c6ac85531ace71d3caee48be8c8aa96e4a8b2356583fddc724b3d1db47dc4781bab4c9adfa9",
    "d6301ca01273bd37c34fee4010a71c3e97c70846647de1cf328862d665863484fe2b2e86738735d1c65b883f523a09db",
    "2aa6a8ae440cde76a4be5c878b3ad72f64cbf96a43d61156df10ec030dbc075504a01b0932dd5eff5c40328821cbcb5a",
    "3fc260b10e4799b5b99456103c1260a629bade8d10dc479bba4fc8676b387cba86e0efca776a1525940a3fd4176ae93d",
    "dd242d2df1085d0a80ce5002fd24d33881ec762aad1fe36f4c424370476ce63036dcb655bb04afdc1a2a5049ceb52389",
    "cdb5306aa00009cf013a278683dc41421d991821b160f83eff622376bbc511d9587553f1f7b175127082b4a90bc5d0eb",
    "ed2cf5dd53ed76f9976bed8f49a10b9cef2db7ff3a3120ebdedfdcf2f148b142ccb9b9d2a9bd074c9fa90d08d8bcde65",
    "5e886e9501635bc85c3eda17abf13be9d8ad0426a0f317c17e6b93ff572d188808467151f4cc5a5004a458174e74907d",
    "2db4fbc0c101ba49790e3f22288081ba1a38448f9cacee6d8e90af255287b7baf595a7b70b262d79a0c3e0f2fc576b74",
    "b1b4d9f600000000000000000000000000000000000000070b11141d24",
];

const MSG_HEX: &str = "5a5a5a5a5a5a5a5a5a5a5a5a5a5a5a5a5a5a5a5a5a5a5a5a5a5a5a5a5a5a5a5a";

fn unhex(parts: &[&str]) -> Vec<u8> {
    let s: String = parts.concat();
    (0..s.len() / 2).map(|i| u8::from_str_radix(&s[2 * i..2 * i + 2], 16).unwrap()).collect()
}

fn triple() -> (Vec<u8>, Vec<u8>, Vec<u8>) {
    (unhex(&KEY_HEX), unhex(&[MSG_HEX]), unhex(&SIG_HEX))
}

#[test]
fn valid_signature_is_accepted() {
    let (pk, msg, sig) = triple();
    assert_eq!(pk.len(), ARTIFACTKEYBYTES);
    assert_eq!(sig.len(), SIGNATUREBYTES);
    assert_eq!(verify_transformation(&sig, &msg, &pk), Ok(()));
}

#[test]
fn verification_is_deterministic() {
    let (pk, msg, sig) = triple();
    let first = artifact_verify(&sig, &msg, &pk);
    for _ in 0..3 {
        assert_eq!(artifact_verify(&sig, &msg, &pk), first);
    }
    let mut bad = sig.clone();
    bad[0] ^= 1;
    let first_bad = artifact_verify(&bad, &msg, &pk);
    assert_eq!(artifact_verify(&bad, &msg, &pk), first_bad);
}

#[test]
fn flipped_seal_or_response_bytes_are_rejected() {
    let (pk, msg, sig) = triple();
    let mut rejected = 0;
    let positions: Vec<usize> = (0..40).map(|i| (i * 83 + 5) % (32 + 5 * 640)).collect();
    for &p in &positions {
        let mut bad = sig.clone();
        bad[p] ^= 0x01;
        match verify_transformation(&bad, &msg, &pk) {
            Err(_) => rejected += 1,
            Ok(()) => {}
        }
    }
    assert_eq!(rejected, positions.len());
}

#[test]
fn flipped_message_bytes_are_rejected() {
    let (pk, msg, sig) = triple();
    for p in 0..msg.len() {
        let mut bad = msg.clone();
        bad[p] ^= 0x80;
        assert_eq!(verify_transformation(&sig, &bad, &pk), Err(EternityError::VerificationFailed));
    }
}

#[test]
fn flipped_key_bytes_are_rejected() {
    let (pk, msg, sig) = triple();
    for p in [0usize, 31, 32, 1000, 1951] {
        let mut bad = pk.clone();
        bad[p] ^= 0x04;
        assert_eq!(verify_transformation(&sig, &msg, &bad), Err(EternityError::VerificationFailed));
    }
}

#[test]
fn truncated_signature_is_a_decode_error() {
    let (pk, msg, sig) = triple();
    assert_eq!(verify_transformation(&sig[..sig.len() - 1], &msg, &pk), Err(EternityError::InvalidInput));
    assert_eq!(artifact_verify(&sig[..sig.len() - 1], &msg, &pk), Err(ValidationError::Input));
    let mut longer = sig.clone();
    longer.push(0);
    assert_eq!(verify_transformation(&longer, &msg, &pk), Err(EternityError::InvalidInput));
}

#[test]
fn wrong_key_length_is_a_decode_error() {
    let (pk, msg, sig) = triple();
    assert_eq!(verify_transformation(&sig, &msg, &pk[..pk.len() - 1]), Err(EternityError::InvalidInput));
}

#[test]
fn oversized_response_is_a_decode_error() {
    let (pk, msg, _) = triple();
    // all-zero response bytes decode to GAMMA1 in every coefficient
    let sig = vec![0u8; SIGNATUREBYTES];
    assert_eq!(verify_transformation(&sig, &msg, &pk), Err(EternityError::InvalidInput));
}

#[test]
fn hint_byte_corruption_is_a_decode_error() {
    let (pk, msg, sig) = triple();
    let mut bad = sig.clone();
    // the last count must not exceed OMEGA
    bad[SIGNATUREBYTES - 1] = 56;
    assert_eq!(verify_transformation(&bad, &msg, &pk), Err(EternityError::InvalidInput));
}

#[test]
fn zero_response_with_no_hints_fails_verification() {
    let (pk, msg, _) = triple();
    let mut sig = vec![0u8; SIGNATUREBYTES];
    for g in 0..(5 * 640 / 5) {
        // two 20-bit fields of 2^19 decode to coefficients 0
        sig[32 + 5 * g + 2] = 0x08;
        sig[32 + 5 * g + 4] = 0x80;
    }
    assert_eq!(verify_transformation(&sig, &msg, &pk), Err(EternityError::VerificationFailed));
}

#[test]
fn message_digest_binds_key_and_message() {
    let (pk, msg, _) = triple();
    let d = artifact_verify_stage3(&pk, &msg);
    assert_eq!(d.len(), 64);
    let mut other = msg.clone();
    other[0] ^= 1;
    assert_ne!(artifact_verify_stage3(&pk, &other), d);
}

#[test]
fn account_initialization_requires_valid_signature() {
    let (pk, msg, sig) = triple();
    let mut message = [0u8; 32];
    message.copy_from_slice(&msg);
    let args = ArtifactVerifyArgs { signature: sig.clone(), message, relic_key: pk.clone() };
    assert_eq!(init_artifact_accounts(&args), Ok(()));
    let mut bad = sig.clone();
    bad[3] ^= 0x10;
    let args = ArtifactVerifyArgs { signature: bad, message, relic_key: pk };
    assert_eq!(init_artifact_accounts(&args), Err(EternityError::VerificationFailed));
}

#[test]
fn vault_initializes_once() {
    let mut v = Vault { owner_pubkey: [0u8; 32], is_initialized: false };
    assert_eq!(v.init([7u8; 32]), Ok(()));
    assert_eq!(v.owner_pubkey, [7u8; 32]);
    assert!(v.is_initialized);
    assert_eq!(v.init([9u8; 32]), Err(PlayerError::AlreadyInitialized));
    assert_eq!(v.owner_pubkey, [7u8; 32]);
}
