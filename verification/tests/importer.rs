//! Prompt document import: groups, titles, ordinals, warnings, intake
//! headers, encodings and file-stem naming.

use gendesk::importer::{
    clean_file_stem, parse_group_header, parse_named, strip_leading_number, GroupOrigin,
    ParsedGroup, ParsedImport, DEFAULT_GROUP,
};
use gendesk::importer::parse_text;


/// 测试便捷：不带文件名的解析（生产路径一律走 `parse_named`）。
fn parse(bytes: &[u8]) -> ParsedImport {
    parse_named(bytes, None)
}

/// 测试便捷：把 ParsedPrompt 拍平成 (title, text) 便于断言。
fn flat(g: &ParsedGroup) -> Vec<(Option<&str>, &str)> {
    g.prompts
        .iter()
        .map(|p| (p.title.as_deref(), p.text.as_str()))
        .collect()
}
fn texts(g: &ParsedGroup) -> Vec<&str> {
    g.prompts.iter().map(|p| p.text.as_str()).collect()
}

#[test]
fn parses_full_utf8_document() {
    let doc = "\
分组: 电商主图
前缀: dz
场景: 商品
标签: 白底, 3C、主图

第一条提示词正文。
第二条提示词正文。
";
    let out = parse(doc.as_bytes());
    assert_eq!(out.groups.len(), 1);
    let g = &out.groups[0];
    assert_eq!(g.name, "电商主图");
    assert_eq!(g.prefix.as_deref(), Some("DZ")); // 前缀大写归一
    assert_eq!(g.scene, "商品");
    assert_eq!(g.tags, vec!["白底", "3C", "主图"]);
    assert_eq!(texts(g), vec!["第一条提示词正文。", "第二条提示词正文。"]);
    // 无小标题行时 title 为 None。
    assert!(g.prompts.iter().all(|p| p.title.is_none()));
}

#[test]
fn missing_group_falls_back_to_default() {
    let out = parse("只有一条正文，没有分组头。".as_bytes());
    assert_eq!(out.groups.len(), 1);
    assert_eq!(out.groups[0].name, DEFAULT_GROUP);
    assert_eq!(out.groups[0].prefix, None);
    assert_eq!(out.groups[0].prompts.len(), 1);
}

#[test]
fn missing_tags_and_empty_lines_ok() {
    let doc = "分组: A\n\n\n正文1\n\n\n正文2\n\n";
    let out = parse(doc.as_bytes());
    assert_eq!(out.groups[0].tags.len(), 0);
    assert_eq!(texts(&out.groups[0]), vec!["正文1", "正文2"]);
}

#[test]
fn each_nonempty_line_is_one_prompt() {
    let doc = "分组: A\n第一行\n第二行\n第三行\n\n下一条";
    let out = parse(doc.as_bytes());
    assert_eq!(
        texts(&out.groups[0]),
        vec!["第一行", "第二行", "第三行", "下一条"]
    );
}

#[test]
fn very_long_prompt_over_500_chars() {
    let long = "光".repeat(600);
    let doc = format!("分组: A\n{long}");
    let out = parse(doc.as_bytes());
    assert_eq!(out.groups[0].prompts[0].text.chars().count(), 600);
}

#[test]
fn multiple_groups() {
    let doc = "分组: A\n前缀: AA\na1\n\n分组: B\n前缀: BB\nb1\nb2扩展\n\nb3";
    let out = parse(doc.as_bytes());
    assert_eq!(out.groups.len(), 2);
    assert_eq!(out.groups[0].name, "A");
    assert_eq!(texts(&out.groups[0]), vec!["a1"]);
    assert_eq!(out.groups[1].name, "B");
    assert_eq!(texts(&out.groups[1]), vec!["b1", "b2扩展", "b3"]);
}

#[test]
fn decodes_gbk() {
    // "分组: 商品\n正文一" 的 GBK 字节
    let (bytes, _enc, _had_errors) = encoding_rs::GBK.encode("分组: 商品\n正文一");
    let out = parse(&bytes);
    assert_eq!(out.groups[0].name, "商品");
    assert_eq!(texts(&out.groups[0]), vec!["正文一"]);
}

#[test]
fn fullwidth_colon_supported() {
    let out = parse("分组：全角\n正文".as_bytes());
    assert_eq!(out.groups[0].name, "全角");
}

#[test]
fn bracket_group_header_and_titles() {
    // 用户实际格式：分组【名】 + 每条上方独占一行的【小标题】 + 带前导序号的正文。
    let doc = "\
分组【丁禹兮】

【雷雨拆快递】
1. 把图中这只卡套放进随手拍照片里。

【楼道骑车】
2. 把绿色卡套连同配件放进照片里。
";
    let out = parse(doc.as_bytes());
    assert_eq!(out.groups.len(), 1);
    let g = &out.groups[0];
    assert_eq!(g.name, "丁禹兮");
    assert_eq!(
        flat(g),
        vec![
            (Some("雷雨拆快递"), "把图中这只卡套放进随手拍照片里。"),
            (Some("楼道骑车"), "把绿色卡套连同配件放进照片里。"),
        ]
    );
}

#[test]
fn multiple_bracket_groups_split() {
    let doc = "\
分组【组一】
【标题A】
1. 甲正文
分组【组二】
【标题B】
1、乙正文
【标题C】
2）丙正文
";
    let out = parse(doc.as_bytes());
    assert_eq!(out.groups.len(), 2);
    assert_eq!(out.groups[0].name, "组一");
    assert_eq!(flat(&out.groups[0]), vec![(Some("标题A"), "甲正文")]);
    assert_eq!(out.groups[1].name, "组二");
    assert_eq!(
        flat(&out.groups[1]),
        vec![(Some("标题B"), "乙正文"), (Some("标题C"), "丙正文")]
    );
}

#[test]
fn title_without_number_and_prompt_without_title() {
    let doc = "分组【G】\n【只有标题】\n没有序号的正文\n没有标题也没序号的正文";
    let out = parse(doc.as_bytes());
    assert_eq!(
        flat(&out.groups[0]),
        vec![
            (Some("只有标题"), "没有序号的正文"),
            (None, "没有标题也没序号的正文"),
        ]
    );
}

#[test]
fn embedded_brackets_in_body_not_treated_as_title() {
    // 正文中含括号但非整行括号块 → 不误判为小标题。
    let doc = "分组【G】\n把【绿色】卡套放进照片";
    let out = parse(doc.as_bytes());
    assert_eq!(flat(&out.groups[0]), vec![(None, "把【绿色】卡套放进照片")]);
}

// 用户真实格式：**裸括号**分组头（无「分组」关键字）+ 小标题 + 带全角点序号正文。
// 结构：`【分组】` 空行 `【小标题】` `1．正文` …（图 1 卡套提示词批次）。
#[test]
fn bare_bracket_group_is_detected() {
    let doc = "\
【时代少年团场景图】

【画室调色台】
1．把图中这只印有男团合照的浅绿色证件卡套放进照片。

【天台画速写】
2．把图中这只卡套连同配件放进照片。
";
    let out = parse(doc.as_bytes());
    assert_eq!(out.groups.len(), 1, "裸括号应识别为分组而非小标题");
    let g = &out.groups[0];
    assert_eq!(g.name, "时代少年团场景图");
    assert_eq!(
        flat(g),
        vec![
            (
                Some("画室调色台"),
                "把图中这只印有男团合照的浅绿色证件卡套放进照片。"
            ),
            (Some("天台画速写"), "把图中这只卡套连同配件放进照片。"),
        ]
    );
    // 分组已识别 → 无「正文出现在分组标记前」告警。
    assert!(out.warnings.is_empty(), "不应再落入默认分组并告警");
}

// 多个裸括号分组按其后是否紧跟另一括号自动拆分。
#[test]
fn multiple_bare_bracket_groups_split() {
    let doc = "\
【场景一】
【标题A】
1．甲正文
【场景二】
【标题B】
2．乙正文
";
    let out = parse(doc.as_bytes());
    assert_eq!(out.groups.len(), 2);
    assert_eq!(out.groups[0].name, "场景一");
    assert_eq!(flat(&out.groups[0]), vec![(Some("标题A"), "甲正文")]);
    assert_eq!(out.groups[1].name, "场景二");
    assert_eq!(flat(&out.groups[1]), vec![(Some("标题B"), "乙正文")]);
    assert!(out.warnings.is_empty());
}

// 裸括号分组下紧跟正文（无小标题）：仍识别为分组。
#[test]
fn bare_bracket_group_then_direct_body() {
    // 【组】下一行是元信息头 → 判为分组；再下面才是正文。
    let doc = "【只有一个分组】\n前缀: ab\n直接正文一\n直接正文二";
    let out = parse(doc.as_bytes());
    assert_eq!(out.groups.len(), 1);
    assert_eq!(out.groups[0].name, "只有一个分组");
    assert_eq!(out.groups[0].prefix.as_deref(), Some("AB"));
    assert_eq!(texts(&out.groups[0]), vec!["直接正文一", "直接正文二"]);
}

// 方括号 / 全角方括号 / 六角括号亦可作分组与小标题。
#[test]
fn alternative_bracket_styles() {
    let doc = "[场景]\n［标题一］\n1. 正文一\n〖标题二〗\n2. 正文二";
    let out = parse(doc.as_bytes());
    assert_eq!(out.groups.len(), 1);
    assert_eq!(out.groups[0].name, "场景");
    assert_eq!(
        flat(&out.groups[0]),
        vec![(Some("标题一"), "正文一"), (Some("标题二"), "正文二")]
    );
}

// 用户真实格式：`【分组：名称】` —— 把「分组：」一起括进方括号，且分组下直接跟正文（无小标题）。
// 旧逻辑因前瞻到下一行是正文而误判为小标题，全部塌进默认分组；此处应正确按分组拆分。
#[test]
fn bracket_wrapped_group_header_with_direct_body() {
    let doc = "\
【分组：鹿晗】

奶油蜂蜜生日派对餐桌正文。
柠檬汽水气泡池正文。

【分组：鞠婧祎】

玻璃汽水瓶瓶底寻宝正文。
";
    let out = parse(doc.as_bytes());
    assert_eq!(out.groups.len(), 2, "括号包裹的分组头应按分组拆分");
    assert_eq!(out.groups[0].name, "鹿晗");
    assert_eq!(
        texts(&out.groups[0]),
        vec!["奶油蜂蜜生日派对餐桌正文。", "柠檬汽水气泡池正文。"]
    );
    assert_eq!(out.groups[1].name, "鞠婧祎");
    assert_eq!(texts(&out.groups[1]), vec!["玻璃汽水瓶瓶底寻宝正文。"]);
    // 分组已识别 → 不应再落默认分组并告警。
    assert!(out.warnings.is_empty(), "不应误判为默认分组");
}

// 分组头分隔符更宽泛：空白 / 短横线 / 等号 / 大小写不敏感 group / 括号包裹的短横线形式。
#[test]
fn flexible_group_header_separators() {
    assert_eq!(parse_group_header("分组 鹿晗").as_deref(), Some("鹿晗"));
    assert_eq!(parse_group_header("分组-鞠婧祎").as_deref(), Some("鞠婧祎"));
    assert_eq!(
        parse_group_header("分组＝邓紫棋").as_deref(),
        Some("邓紫棋")
    );
    assert_eq!(parse_group_header("GROUP: alpha").as_deref(), Some("alpha"));
    assert_eq!(parse_group_header("Group【beta】").as_deref(), Some("beta"));
    // 括号包裹的关键字（含短横线分隔）。
    let out = parse("[组-甲]\n正文一\n正文二".as_bytes());
    assert_eq!(out.groups.len(), 1);
    assert_eq!(out.groups[0].name, "甲");
    assert_eq!(texts(&out.groups[0]), vec!["正文一", "正文二"]);
}

// 防误伤：单字 `组` 不吃空白分隔；以「组」「分组」起头的正文不被当作分组头。
#[test]
fn group_header_does_not_swallow_body() {
    assert_eq!(parse_group_header("组 图排版说明"), None);
    assert_eq!(parse_group_header("组合成一张图"), None);
    assert_eq!(parse_group_header("分组内的说明文字"), None);
    // `组：X` 单字关键字 + 显式冒号仍识别。
    assert_eq!(parse_group_header("组：临时").as_deref(), Some("临时"));
}

// 序号剥离：括号数字 `(1)`/`（2）` 与圆圈数字 `③`。
#[test]
fn strips_paren_and_circled_numbers() {
    assert_eq!(strip_leading_number("(1) 甲"), "甲");
    assert_eq!(strip_leading_number("（2）乙"), "乙");
    assert_eq!(strip_leading_number("③丙"), "丙");
    assert_eq!(strip_leading_number("④、丁"), "丁");
    assert_eq!(strip_leading_number("5，戊"), "戊");
    // 非序号：括号内非纯数字、或无分隔符时原样保留。
    assert_eq!(strip_leading_number("(a) 保留"), "(a) 保留");
    assert_eq!(strip_leading_number("2024 年不是序号"), "2024 年不是序号");
}

// E37：正文出现在任何「分组」标记前 → 告警含首个正文行号。
#[test]
fn warns_content_before_group_with_line() {
    // 第 1~2 行为空/说明，第 3 行是缺分组标记的正文。
    let doc = "\n\n没有分组头的正文\n分组: A\n正文A";
    let out = parse(doc.as_bytes());
    assert_eq!(out.warnings.len(), 1);
    assert_eq!(out.warnings[0].line, 3, "告警指向第 3 行");
    assert!(out.warnings[0].message.contains("分组"));
    // 正文仍被容错归入默认组 + A 组。
    assert_eq!(out.total_prompts(), 2);
}

// E37：小标题后无正文（文件结尾悬空）→ 告警含小标题行号。
#[test]
fn warns_dangling_title_at_eof() {
    let doc = "分组: A\n正文1\n【结尾悬空标题】";
    let out = parse(doc.as_bytes());
    assert_eq!(out.warnings.len(), 1);
    assert_eq!(out.warnings[0].line, 3);
    assert!(out.warnings[0].message.contains("结尾悬空标题"));
}

// 正常文档无告警。
#[test]
fn clean_document_has_no_warnings() {
    let out = parse("分组: A\n前缀: AA\n【标题】\n正文".as_bytes());
    assert!(out.warnings.is_empty());
}

/// 造一条「长段落正文」，长度远超形态推断的中位数门槛。
fn long_body(tag: &str) -> String {
    format!(
        "参考图中的卡套挂件产品完整原样保留，{}{}",
        tag,
        "光影自然。".repeat(30)
    )
}

// 用户真实文件（B-Roll 素材分镜提示词）：首行一个裸标题，下面全是长段落，没有任何分组标记。
// 旧行为：整份塌进「未分组导入」并告警「请在文件开头加一行 分组:」。现在应推断出分组名。
#[test]
fn plain_heading_over_long_bodies_is_inferred_group() {
    let mut doc = String::from("鹿晗-B-Roll素材分镜图\n\n");
    for i in 0..5 {
        doc.push_str(&long_body(&format!("第{i}帧")));
        doc.push_str("\n\n");
    }
    let out = parse(doc.as_bytes());
    assert_eq!(out.groups.len(), 1);
    assert_eq!(out.groups[0].name, "鹿晗-B-Roll素材分镜图");
    assert_eq!(out.groups[0].origin, GroupOrigin::Inferred, "应标为疑似");
    assert_eq!(out.groups[0].prompts.len(), 5, "标题行不得混进正文");
    assert!(out.warnings.is_empty(), "认出来了就不该再告警");
}

// 多个裸标题各自管一批长正文 → 按标题拆分多组。
#[test]
fn multiple_plain_headings_split_groups() {
    let doc = format!(
        "鹿晗\n{}\n{}\n\n鞠婧祎\n{}\n{}\n{}\n",
        long_body("a"),
        long_body("b"),
        long_body("c"),
        long_body("d"),
        long_body("e"),
    );
    let out = parse(doc.as_bytes());
    assert_eq!(out.groups.len(), 2);
    assert_eq!(out.groups[0].name, "鹿晗");
    assert_eq!(out.groups[0].prompts.len(), 2);
    assert_eq!(out.groups[1].name, "鞠婧祎");
    assert_eq!(out.groups[1].prompts.len(), 3);
}

// 短标题与长正文 1:1 交替 → 是小标题而非分组（管辖条数才是判层依据）。
#[test]
fn plain_heading_governing_one_body_is_a_title() {
    let doc = format!(
        "奶茶店午后\n{}\n\n画室调色台\n{}\n",
        long_body("a"),
        long_body("b")
    );
    let out = parse(doc.as_bytes());
    assert_eq!(out.groups.len(), 1, "1:1 交替不应拆成分组");
    assert_eq!(out.groups[0].origin, GroupOrigin::Fallback);
    let titles: Vec<_> = out.groups[0]
        .prompts
        .iter()
        .map(|p| p.title.as_deref())
        .collect();
    assert_eq!(titles, vec![Some("奶茶店午后"), Some("画室调色台")]);
}

// 顶层分组 + 其下 1:1 小标题：两层结构都认。
#[test]
fn plain_heading_two_levels() {
    let doc = format!(
        "鹿晗-B-Roll素材分镜图\n奶茶店午后\n{}\n画室调色台\n{}\n",
        long_body("a"),
        long_body("b")
    );
    let out = parse(doc.as_bytes());
    assert_eq!(out.groups.len(), 1);
    assert_eq!(out.groups[0].name, "鹿晗-B-Roll素材分镜图");
    assert_eq!(out.groups[0].origin, GroupOrigin::Inferred);
    assert_eq!(
        flat(&out.groups[0]),
        vec![
            (Some("奶茶店午后"), long_body("a").as_str()),
            (Some("画室调色台"), long_body("b").as_str()),
        ]
    );
}

// 防误吃：短正文文档（无长段落）不启用形态推断，短行仍是一条条提示词。
#[test]
fn short_body_document_is_not_reinterpreted() {
    let doc = "白底商品正面\n商品材质细节特写\n楼道骑行随手拍\n天台画速写";
    let out = parse(doc.as_bytes());
    assert_eq!(out.groups.len(), 1);
    assert_eq!(out.groups[0].prompts.len(), 4, "短文档每行仍是一条提示词");
    assert_eq!(out.groups[0].origin, GroupOrigin::Fallback);
}

// 防误吃：文档一旦有显式分组标记，就完全听它的，不再做形态推断。
#[test]
fn explicit_marker_disables_heuristics() {
    let doc = format!(
        "分组: 正式组\n短行也是一条正文\n{}\n{}\n{}\n",
        long_body("a"),
        long_body("b"),
        long_body("c")
    );
    let out = parse(doc.as_bytes());
    assert_eq!(out.groups.len(), 1);
    assert_eq!(out.groups[0].name, "正式组");
    assert_eq!(out.groups[0].origin, GroupOrigin::Explicit);
    assert_eq!(out.groups[0].prompts.len(), 4, "短行不得被吃成标题");
}

// 裸括号 + 其下多条正文（此前会被判成小标题，把正文全塞进默认组）。
#[test]
fn bare_bracket_governing_many_bodies_is_group() {
    let doc = "【时代少年团场景图】\n甲正文\n乙正文\n丙正文";
    let out = parse(doc.as_bytes());
    assert_eq!(out.groups.len(), 1);
    assert_eq!(out.groups[0].name, "时代少年团场景图");
    assert_eq!(texts(&out.groups[0]), vec!["甲正文", "乙正文", "丙正文"]);
    assert!(out.warnings.is_empty());
}

// 长短混排、其实没有标题的文档：推断可能猜错分层，但**一条都不能丢**。
#[test]
fn misjudged_short_lines_are_salvaged_not_dropped() {
    let doc = format!(
        "白底商品正面\n商品材质细节特写\n楼道骑行随手拍\n{}\n{}\n",
        long_body("a"),
        long_body("b")
    );
    let out = parse(doc.as_bytes());
    let all: Vec<&str> = out
        .groups
        .iter()
        .flat_map(|g| g.prompts.iter().map(|p| p.text.as_str()))
        .collect();
    // 最多一行被当成了组名，其余全部作为提示词保留。
    assert!(all.contains(&"白底商品正面"), "短行不得被吞掉：{all:?}");
    assert!(all.contains(&"商品材质细节特写"), "短行不得被吞掉：{all:?}");
    assert_eq!(out.total_prompts(), 4);
}

// 文件名兜底：文档确实没线索时，用文件名而不是「未分组导入」。
#[test]
fn file_stem_names_the_fallback_group() {
    let out = parse_named(
        "只有一条正文。".as_bytes(),
        Some("B-Roll素材分镜提示词_20260724"),
    );
    assert_eq!(out.groups[0].name, "B-Roll素材分镜提示词");
    assert_eq!(out.groups[0].origin, GroupOrigin::Fallback);
    assert_eq!(out.warnings.len(), 1);
    assert_eq!(out.warnings[0].line, 0, "非行内问题用 0 表示无行号");
}

// 文件名兜底只作用于「无线索」的默认组，认出来的分组名不被覆盖。
#[test]
fn file_stem_does_not_override_detected_group() {
    let out = parse_named("分组: 真名\n正文".as_bytes(), Some("随便什么文件名"));
    assert_eq!(out.groups[0].name, "真名");
    assert!(out.warnings.is_empty());
}

#[test]
fn cleans_file_stem_noise() {
    assert_eq!(clean_file_stem("提示词_20260724"), "提示词");
    assert_eq!(clean_file_stem("提示词 2026-07-24"), "提示词");
    assert_eq!(clean_file_stem("提示词 (1)"), "提示词");
    assert_eq!(clean_file_stem("提示词 副本"), "提示词");
    assert_eq!(
        clean_file_stem("B-Roll素材分镜提示词"),
        "B-Roll素材分镜提示词"
    );
    // 不把名字吃光：纯数字文件名原样保留。
    assert_eq!(clean_file_stem("20260724"), "20260724");
    assert_eq!(clean_file_stem("提示词  说明"), "提示词 说明");
    assert_eq!(clean_file_stem(" 提示词 \t 说明_20260724 "), "提示词 说明");
}

#[test]
fn arbitrary_bytes_do_not_panic() {
    // 属性式冒烟：随机字节不 panic（round-trip 安全）。
    for seed in 0u32..64 {
        let bytes: Vec<u8> = (0..128)
            .map(|i| ((seed.wrapping_mul(31) + i) % 256) as u8)
            .collect();
        let _ = parse(&bytes);
    }
}

// ───────── 投单组头（参考图 / 比例 / 抽卡 / 用途 / 尺寸 / 格式） ─────────

// 标准产出格式：组头带挂靠与参数，正文照旧一段一条。
#[test]
fn intake_headers_are_parsed_on_the_group() {
    let doc = "\
分组: 黄色系卡套
前缀: KT
参考图: images/黄A.jpg, images/黄B.jpg
比例: 3:4
抽卡: 2
用途: 图生视频

第一条完整提示词正文

第二条完整提示词正文
";
    let out = parse(doc.as_bytes());
    assert_eq!(out.groups.len(), 1);
    let g = &out.groups[0];
    assert_eq!(g.name, "黄色系卡套");
    assert_eq!(g.prefix.as_deref(), Some("KT"));
    assert_eq!(g.refs, vec!["images/黄A.jpg", "images/黄B.jpg"]);
    assert_eq!(g.ratio.as_deref(), Some("3:4"));
    assert_eq!(g.draws, Some(2));
    // 用途并进 tags → 下游按「显式用途」处理，不必再猜。
    assert!(g.tags.contains(&"图生视频".to_string()));
    // 组头一行都不该被当成提示词。
    assert_eq!(
        texts(g),
        vec!["第一条完整提示词正文", "第二条完整提示词正文"]
    );
}

// 每组各自的挂靠与比例（收件侧据此拆多个批次）。
#[test]
fn intake_headers_are_per_group() {
    let doc = "\
分组: 黄
参考图: images/黄.jpg
比例: 3:4

黄组正文

分组: 蓝
参考图: images/蓝.jpg
比例: 9:16

蓝组正文
";
    let out = parse(doc.as_bytes());
    assert_eq!(out.groups.len(), 2);
    assert_eq!(out.groups[0].refs, vec!["images/黄.jpg"]);
    assert_eq!(out.groups[0].ratio.as_deref(), Some("3:4"));
    assert_eq!(out.groups[1].refs, vec!["images/蓝.jpg"]);
    assert_eq!(out.groups[1].ratio.as_deref(), Some("9:16"));
}

// **本次最要紧的一条**：正文里以「比例：」开头的一句，不得被当成组头吃掉。
// 这些文档是长叙事提示词，被吃掉的那条会静悄悄少一句话。
#[test]
fn intake_header_shaped_body_line_is_not_swallowed() {
    let doc = "\
分组: A
比例: 3:4

第一条正文

比例：3:4 的竖构图，主体居中，这其实是一整条提示词

第三条正文
";
    let out = parse(doc.as_bytes());
    let g = &out.groups[0];
    assert_eq!(g.ratio.as_deref(), Some("3:4"), "组头区那行仍是参数");
    assert_eq!(
        texts(g),
        vec![
            "第一条正文",
            "比例：3:4 的竖构图，主体居中，这其实是一整条提示词",
            "第三条正文"
        ],
        "正文区里长得像组头的行必须原样留在正文里"
    );
}

// 路径含空格：只按逗号切，不按空白切（按空白切会切出两个都不存在的路径）。
#[test]
fn ref_paths_may_contain_spaces() {
    let doc = "分组: A\n参考图: images/黄 A.jpg, images/蓝 B.jpg\n\n正文";
    let out = parse(doc.as_bytes());
    assert_eq!(
        out.groups[0].refs,
        vec!["images/黄 A.jpg", "images/蓝 B.jpg"]
    );
}

// 抽卡写了非数字不该让整份文档失败：当作没写（后续按默认 1 走）。
#[test]
fn bad_draws_value_degrades_to_none() {
    let doc = "分组: A\n抽卡: 两次\n\n正文";
    assert_eq!(parse(doc.as_bytes()).groups[0].draws, None);
}

// 没有任何投单组头的老文档：新字段全空，行为与从前一致。
#[test]
fn legacy_docs_get_empty_intake_fields() {
    let doc = "分组: A\n前缀: AA\n\n正文一\n\n正文二";
    let g = &parse(doc.as_bytes()).groups[0];
    assert!(g.refs.is_empty() && g.ratio.is_none() && g.draws.is_none());
    assert_eq!(texts(g), vec!["正文一", "正文二"]);
}

#[test]
fn cleaned_stems_are_settled_and_compressed() {
    for stem in [
        "提示词_20260724 (1) 副本",
        "  a   b  copy ",
        "x 20260724 20260725",
        "(1)",
        "主图　　细节",
    ] {
        let once = clean_file_stem(stem);
        assert_eq!(clean_file_stem(&once), once, "{stem:?}");
        assert!(!once.contains("  "), "{once:?}");
        assert_eq!(once.trim(), once);
    }
    assert_eq!(clean_file_stem("主图　　细节"), "主图 细节");
}

#[test]
fn parsed_groups_have_names_and_warnings_have_lines() {
    let doc = "\n\n没有分组头的正文\n【悬空标题】\n分组: A\n正文A\n【结尾标题】";
    let (groups, warnings) = parse_text(doc);
    assert!(groups.iter().all(|g| !g.name.is_empty()));
    assert!(!warnings.is_empty());
    assert!(warnings.iter().all(|w| w.line >= 1), "{warnings:?}");
}

#[test]
fn salvaged_prompts_keep_document_order() {
    let doc = format!(
        "白底商品正面\n商品材质细节特写\n楼道骑行随手拍\n{}\n{}\n",
        long_body("a"),
        long_body("b")
    );
    let (groups, _) = parse_text(&doc);
    let all: Vec<&str> = groups
        .iter()
        .flat_map(|g| g.prompts.iter().map(|p| p.text.as_str()))
        .collect();
    let pos = |t: &str| all.iter().position(|x| *x == t).unwrap();
    assert!(pos("白底商品正面") < pos("商品材质细节特写"), "{all:?}");
    assert!(pos("商品材质细节特写") < pos(&long_body("a")), "{all:?}");
    assert!(pos(&long_body("a")) < pos(&long_body("b")), "{all:?}");
}
