use cstyle::comment::MultiLinesComment;

#[test]
fn comment_multi_lines_comment() {
    let multi_lines_comment = MultiLinesComment::new();

    assert_eq!(multi_lines_comment.verify("", "zdnkcndccc").len(), 0);
    assert_eq!(multi_lines_comment.verify("", "//zdnkcndccc").len(), 0);
    assert_eq!(multi_lines_comment.verify("", "/*zdnkcndccc*/").len(), 0);
    assert_eq!(multi_lines_comment.verify("", "/*\n**zdnkcn\n*/").len(), 0);

    assert_ne!(multi_lines_comment.verify("", "/*zdnkcn\ndccc*/").len(), 0);
    assert_ne!(multi_lines_comment.verify("", "/*\nzdnkcn\n*/").len(), 0);
    assert_ne!(multi_lines_comment.verify("", "/*\nav**zdnkcn\n*/").len(), 0);
    assert_ne!(multi_lines_comment.verify("", "/** *\n**zdnkcn\n*/").len(), 0);
    assert_ne!(multi_lines_comment.verify("", "/**\n**zdnkcn\n*/*").len(), 0);
}
