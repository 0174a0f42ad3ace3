use asyncgit::graphrow::{
    SYM_BRANCH_UP, SYM_BRANCH_UP_RIGHT, SYM_COMMIT, SYM_COMMIT_BRANCH, SYM_COMMIT_MERGE,
    SYM_COMMIT_STASH, SYM_COMMIT_UNCOMMITTED, SYM_HORIZONTAL, SYM_MERGE_BRIDGE_END,
    SYM_MERGE_BRIDGE_MID, SYM_MERGE_BRIDGE_START, SYM_SPACE, SYM_TEE_DOWN, SYM_TEE_LEFT,
    SYM_TEE_RIGHT, SYM_TEE_UP, SYM_VERTICAL, SYM_VERTICAL_DOTTED,
};

#[test]
fn symbols_are_single_char_and_distinct() {
    let symbols = [
        SYM_COMMIT,
        SYM_COMMIT_BRANCH,
        SYM_COMMIT_MERGE,
        SYM_COMMIT_STASH,
        SYM_COMMIT_UNCOMMITTED,
        SYM_VERTICAL,
        SYM_VERTICAL_DOTTED,
        SYM_HORIZONTAL,
        SYM_MERGE_BRIDGE_START,
        SYM_MERGE_BRIDGE_MID,
        SYM_MERGE_BRIDGE_END,
        SYM_BRANCH_UP,
        SYM_BRANCH_UP_RIGHT,
        SYM_TEE_LEFT,
        SYM_TEE_RIGHT,
        SYM_TEE_UP,
        SYM_TEE_DOWN,
        SYM_SPACE,
    ];

    for symbol in symbols {
        assert_eq!(symbol.chars().count(), 1, "{symbol:?} should be a single glyph");
    }
}
