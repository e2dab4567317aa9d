use agentbox::presets::{embedded_presets_hash, to_hex};
use std::hash::{Hash, Hasher};

#[test]
fn test_embedded_hash_stable() {
    let h1 = embedded_presets_hash();
    let h2 = embedded_presets_hash();
    assert_eq!(h1, h2);
}

#[test]
fn hex_is_lower_case_without_leading_zeros() {
    assert_eq!(to_hex(0), "0");
    assert_eq!(to_hex(255), "ff");
    assert_eq!(to_hex(0x1a2b), "1a2b");
    assert_eq!(to_hex(u64::MAX), "ffffffffffffffff");
    assert_eq!(embedded_presets_hash(), format!("{:x}", {
        let mut h = std::collections::hash_map::DefaultHasher::new();
        agentbox::presets::DEFAULT_PRESETS.hash(&mut h);
        h.finish()
    }));
}
