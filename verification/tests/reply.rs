use qq_bot::reply::Reply;

#[test]
fn reply_texts() {
    assert_eq!(Reply::OutputTooLong.text(), "输出大于等于1000B,不予展示");
    assert_eq!(Reply::UnsupportedFormat.text(), "不支持的格式\n支持的格式为jpeg/jpg,png/apng,gif");
    assert_eq!(Reply::StillAlive.text(), "能说话");
    assert_eq!(Reply::TargetNotFound.text(), "未找到at/qq号");
    assert_eq!(Reply::Text("x".to_string()).text(), "x");
}
