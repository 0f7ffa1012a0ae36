//! The controlled alias table: each alias (Chinese, English or model output)
//! paired with the English canonical name of its concept. Aliases that name
//! the same concept share one canonical name, hence one tag code.
use vstd::prelude::*;

verus! {

/// The alias table, in order.
pub open spec fn builtin_alias_table() -> Seq<(Seq<char>, Seq<char>)> {
    seq![
        ("文本"@, "Text"@),
        ("纯文字"@, "Plain Text"@),
        ("文档"@, "Document"@),
        ("图片"@, "Image"@),
        ("视频"@, "Video"@),
        ("音频"@, "Audio"@),
        ("压缩包"@, "Compressed Archive"@),
        ("源代码"@, "Source Code"@),
        ("程序"@, "Executable Program"@),
        ("字体"@, "Font"@),
        ("模型"@, "3D Model"@),
        ("系统文件"@, "System Files"@),
        ("数据库"@, "Database"@),
        ("磁盘映像"@, "Disk Image"@),
        ("应用数据"@, "Application Data"@),
        ("电子书"@, "E-Book"@),
        ("截图"@, "Screenshot"@),
        ("设计稿"@, "Design Draft"@),
        ("图纸"@, "Blueprint"@),
        ("表情包"@, "Meme"@),
        ("证照"@, "ID Document"@),
        ("合同票据"@, "Contract or Invoice"@),
        ("海报宣发"@, "Poster Promo"@),
        ("医学影像"@, "Medical Imaging"@),
        ("网页长截图"@, "Long Webpage Screenshot"@),
        ("UI界面截图"@, "UI Screenshot"@),
        ("聊天截图"@, "Chat Screenshot"@),
        ("代码截图"@, "Code Screenshot"@),
        ("游戏截图"@, "Game Screenshot"@),
        ("有字图"@, "Image With Text"@),
        ("无字图"@, "Image Without Text"@),
        ("全彩"@, "Full Color"@),
        ("黑白"@, "Black And White"@),
        ("摄影照片"@, "Photo"@),
        ("人像写真"@, "Portrait"@),
        ("人物照"@, "Person Photo"@),
        ("私房写真"@, "Boudoir Photo"@),
        ("婚纱照"@, "Wedding Photo"@),
        ("静物照"@, "Still Life Photo"@),
        ("自然景观"@, "Natural Landscape"@),
        ("城市建筑"@, "City Architecture"@),
        ("旅行照"@, "Travel Photo"@),
        ("风景照"@, "Scenery Photo"@),
        ("宠物照"@, "Pet Photo"@),
        ("二次元"@, "Anime Style"@),
        ("动漫"@, "Anime"@),
        ("插画"@, "Illustration"@),
        ("漫画"@, "Comic"@),
        ("手绘"@, "Hand Drawn"@),
        ("代码"@, "Code"@),
        ("保密"@, "Confidential"@),
        ("名人"@, "Celebrity"@),
        ("社会名流"@, "Celebrity"@),
        ("历史遗迹"@, "Historic Site"@),
        ("户外活动"@, "Outdoor Activity"@),
        ("夜景照"@, "Night Photo"@),
        ("怀旧"@, "Nostalgic"@),
        ("建筑摄影"@, "Architecture Photo"@),
        ("微距摄影"@, "Macro Photo"@),
        ("街拍抓拍"@, "Street Photo"@),
        ("航空航拍"@, "Aerial Photo"@),
        ("青年漫"@, "Youth Comic"@),
        ("少年漫"@, "Boys Comic"@),
        ("少女漫"@, "Girls Comic"@),
        ("成人漫"@, "Adult Comic"@),
        ("实拍"@, "Real Shot"@),
        ("CG渲染"@, "CG Render"@),
        ("AI生成"@, "AI Generated"@),
        ("绘画"@, "Painting"@),
        ("应用图标"@, "App Icon"@),
        ("高饱和鲜艳"@, "High Saturation"@),
        ("暖色调"@, "Warm Tone"@),
        ("冷色调"@, "Cool Tone"@),
        ("中性黑白灰"@, "Neutral Gray"@),
        ("透明背景"@, "Transparent Background"@),
        ("实景背景"@, "Real Scene Background"@),
        ("人物主体"@, "Human Subject"@),
        ("动物宠物"@, "Animal Pet"@),
        ("植物花草"@, "Plant Flower"@),
        ("静物商品"@, "Still Life Product"@),
        ("环境建筑"@, "Environment Building"@),
        ("无人空镜"@, "Empty Scene"@),
        ("单人"@, "Single Person"@),
        ("双人"@, "Two Persons"@),
        ("多人合影"@, "Group Photo"@),
        ("色情"@, "Pornography"@),
        ("血腥"@, "Gore"@),
        ("涉政"@, "Political Sensitive"@),
        ("违规"@, "Violation"@),
        ("高ISO噪点"@, "High ISO Noise"@),
        ("逆光死白"@, "Backlight Blowout"@),
        ("暗光欠曝"@, "Underexposed"@),
        ("同人本"@, "Doujinshi"@),
        ("剧情"@, "Story"@),
        ("二次元色情"@, "Anime Pornography"@),
        ("软色情"@, "Soft Pornography"@),
        ("性感"@, "Sexy"@),
        ("擦边诱惑"@, "Borderline Tease"@),
        ("血腥暴力"@, "Bloody Violence"@),
        ("断头斩首"@, "Beheading"@),
        ("肢解碎尸"@, "Dismemberment"@),
        ("血腥虐杀"@, "Bloody Massacre"@),
        ("露骨"@, "Explicit"@),
        ("露骨性行为"@, "Explicit Sexual Act"@),
        ("安全"@, "Safe"@),
        ("全年龄"@, "All Ages"@),
        ("水彩水墨"@, "Watercolor Ink"@),
        ("四格漫"@, "Four Panel Comic"@),
        ("页漫"@, "Page Comic"@),
        ("条漫"@, "Webtoon"@),
        ("欢乐"@, "Joyful"@),
        ("悲伤"@, "Sad"@),
        ("紧张"@, "Tense"@),
        ("兴奋"@, "Excited"@),
        ("压抑"@, "Depressed"@),
        ("历史"@, "History"@),
        ("text"@, "Text"@),
        ("document"@, "Document"@),
        ("image"@, "Image"@),
        ("screenshot"@, "Screenshot"@),
        ("screen capture"@, "Screenshot"@),
        ("design draft"@, "Design Draft"@),
        ("blueprint"@, "Blueprint"@),
        ("meme"@, "Meme"@),
        ("id document"@, "ID Document"@),
        ("invoice"@, "Invoice"@),
        ("contract"@, "Contract"@),
        ("full color"@, "Full Color"@),
        ("black and white"@, "Black And White"@),
        ("black_and_white"@, "Black And White"@),
        ("image with text"@, "Image With Text"@),
        ("image without text"@, "Image Without Text"@),
        ("text image"@, "Image With Text"@),
        ("anime"@, "Anime"@),
        ("illustration"@, "Illustration"@),
        ("comic"@, "Comic"@),
        ("portrait"@, "Portrait"@),
        ("person photo"@, "Person Photo"@),
        ("still life photo"@, "Still Life Photo"@),
        ("natural landscape"@, "Natural Landscape"@),
        ("scenery photo"@, "Scenery Photo"@),
        ("travel photo"@, "Travel Photo"@),
        ("night photo"@, "Night Photo"@),
        ("real shot"@, "Real Shot"@),
        ("cg render"@, "CG Render"@),
        ("painting"@, "Painting"@),
        ("photo"@, "Photo"@),
        ("black and white"@, "Black And White"@),
        ("full color"@, "Full Color"@),
        ("pornography"@, "Pornography"@),
        ("image with text"@, "Image With Text"@),
        ("image without text"@, "Image Without Text"@),
        ("ui screenshot"@, "UI Screenshot"@),
        ("landscape"@, "Natural Landscape"@),
        ("code screenshot"@, "Code Screenshot"@),
        ("ui screenshot"@, "UI Screenshot"@),
        ("chat screenshot"@, "Chat Screenshot"@),
        ("confidential"@, "Confidential"@),
        ("长图"@, "Long Image"@),
        ("正方形图"@, "Square Image"@),
        ("横图"@, "Horizontal Image"@),
        ("竖图"@, "Vertical Image"@),
        ("横屏"@, "Landscape"@),
        ("竖屏"@, "Portrait"@),
        ("主题内容"@, "Topic"@),
        ("topic"@, "Topic"@),
        ("long image"@, "Long Image"@),
        ("square image"@, "Square Image"@),
        ("horizontal image"@, "Horizontal Image"@),
        ("vertical image"@, "Vertical Image"@),
        ("合同"@, "Contract"@),
        ("发票"@, "Invoice"@),
        ("红头文件"@, "Official Document"@),
        ("论文"@, "Paper"@),
        ("收据"@, "Receipt"@),
        ("对账单"@, "Statement"@),
        ("银行回单"@, "Bank Receipt"@),
        ("采购订单"@, "Purchase Order"@),
        ("报销凭证"@, "Expense Voucher"@),
        ("保函协议"@, "Letter Of Guarantee"@),
        ("投标文件"@, "Bidding Document"@),
        ("身份证"@, "ID Card"@),
        ("房产证"@, "Property Certificate"@),
        ("护照"@, "Passport"@),
        ("驾驶证"@, "Driver License"@),
        ("行驶证"@, "Vehicle License"@),
        ("车牌"@, "License Plate"@),
        ("银行卡"@, "Bank Card"@),
        ("营业执照"@, "Business License"@),
        ("户口本"@, "Household Register"@),
        ("毕业证"@, "Diploma"@),
        ("学位证"@, "Degree Certificate"@),
        ("工作证"@, "Work Permit"@),
        ("结婚证"@, "Marriage Certificate"@),
        ("社保卡"@, "Social Security Card"@),
        ("特写"@, "Close Up"@),
        ("半身"@, "Medium Shot"@),
        ("全身"@, "Full Shot"@),
        ("全景"@, "Panoramic Shot"@),
        ("微距"@, "Macro"@),
        ("日光"@, "Sunlight"@),
        ("日落"@, "Sunset"@),
        ("夜景"@, "Night Scene"@),
        ("暗光"@, "Low Light"@),
        ("室内光"@, "Indoor Light"@),
        ("纯色背景"@, "Solid Background"@),
        ("平视"@, "Eye Level"@),
        ("俯视"@, "Top Down View"@),
        ("仰视"@, "Low Angle View"@),
        ("第一人称"@, "First Person"@),
        ("图表为主"@, "Chart Dominant"@),
        ("图文混合"@, "Text And Graphic"@),
        ("手写笔记"@, "Handwritten Notes"@),
        ("Windows截图"@, "Windows Screenshot"@),
        ("macOS截图"@, "macOS Screenshot"@),
        ("iOS截图"@, "iOS Screenshot"@),
        ("Android截图"@, "Android Screenshot"@),
        ("Linux截图"@, "Linux Screenshot"@),
        ("正方形"@, "Square"@),
        ("超宽长条"@, "Ultra Wide"@),
        ("微量文本"@, "Minimal Text"@),
        ("图文标题"@, "Graphic Title"@),
        ("密集排版"@, "Dense Layout"@),
        ("扁平极简"@, "Flat Minimalist"@),
        ("写实拟真"@, "Photorealistic"@),
        ("复古胶片"@, "Vintage Film"@),
        ("赛博朋克"@, "Cyberpunk"@),
        ("春季花景"@, "Spring Bloom"@),
        ("夏季绿荫"@, "Summer Shade"@),
        ("秋季金黄"@, "Autumn Foliage"@),
        ("冬季雪景"@, "Winter Snow"@),
        ("红色"@, "Red"@),
        ("橙色"@, "Orange"@),
        ("黄色"@, "Yellow"@),
        ("绿色"@, "Green"@),
        ("青色"@, "Cyan"@),
        ("蓝色"@, "Blue"@),
        ("紫色"@, "Purple"@),
        ("粉色"@, "Pink"@),
        ("棕色"@, "Brown"@),
        ("白色"@, "White"@),
        ("黑色"@, "Black"@),
        ("灰色"@, "Gray"@),
        ("商业志"@, "Commercial Manga"@),
        ("虚焦"@, "Out Of Focus"@),
        ("抖动"@, "Motion Blur"@),
        ("曝光良好"@, "Good Exposure"@),
        ("轻微欠曝"@, "Slight Underexposure"@),
        ("轻微过曝"@, "Slight Overexposure"@),
        ("模糊废片"@, "Blurry Wastage"@),
        ("脱焦"@, "Defocused"@),
        ("运动抖动"@, "Motion Shake"@),
        ("曝光正常"@, "Normal Exposure"@),
        ("无码"@, "Uncensored"@),
        ("薄码"@, "Light Mosaic"@),
        ("有码"@, "Censored"@),
        ("无水印"@, "No Watermark"@),
        ("轻水印"@, "Light Watermark"@),
        ("有水印"@, "Watermarked"@),
        ("高质量"@, "High Quality"@),
        ("中等质量"@, "Medium Quality"@),
        ("低质量"@, "Low Quality"@),
        ("R-15"@, "R-15"@),
        ("R-18"@, "R-18"@),
        ("R-18G"@, "R-18G"@),
        ("暴恐"@, "Violence Terror"@),
        ("生殖器暴露"@, "Genital Exposure"@),
        ("性虐调教"@, "Sadomasochism"@),
        ("乱伦淫秽"@, "Incest Obscene"@),
        ("强奸轮奸"@, "Rape Assault"@),
        ("自慰高潮"@, "Masturbation"@),
        ("调教拘束"@, "Bondage"@),
        ("情色文娱"@, "Erotic Entertainment"@),
        ("暴露走光"@, "Exposure Wardrobe Malfunction"@),
        ("残肢断臂"@, "Severed Limbs"@),
        ("尸体残骸"@, "Corpse Remains"@),
        ("酷刑折磨"@, "Torture"@),
        ("重口猎奇"@, "Hardcore Bizarre"@),
        ("暴恐惨案"@, "Terror Tragedy"@),
        ("自残放血"@, "Self Harm Bleeding"@),
        ("血肉模糊"@, "Flesh Mutilation"@),
        ("涉政违规"@, "Political Sensitive Violation"@),
        ("反党反政"@, "Subversive Politics"@),
        ("颠覆政权"@, "Subversion"@),
        ("邪教分裂"@, "Cult Separatism"@),
        ("邪教组织"@, "Cult Organization"@),
        ("暴乱动乱"@, "Riots Turmoil"@),
        ("违法违规"@, "Illegal Violation"@),
        ("毒品交易"@, "Drug Trafficking"@),
        ("走私贩私"@, "Smuggling"@),
        ("网络赌博"@, "Online Gambling"@),
        ("洗钱诈骗"@, "Money Laundering Fraud"@),
        ("暗网黑产"@, "Darknet Underground"@),
        ("洗钱黑产"@, "Laundering Industry"@),
        ("电信诈骗"@, "Telecom Fraud"@),
        ("各地美食"@, "Local Delicacy"@),
        ("治愈"@, "Healing"@),
        ("致郁"@, "Depressing"@),
        ("轻松"@, "Relaxed"@),
        ("感动"@, "Touching"@),
        ("欲望"@, "Desire"@),
        ("罪恶感"@, "Guilt"@),
        ("背德感"@, "Transgression"@),
        ("羞耻"@, "Shame"@),
        ("支配"@, "Dominance"@),
        ("写实"@, "Realistic"@),
        ("内容标签"@, "Content Tag"@),
        ("图片细分"@, "Image Subdivision"@)

    ]
}

/// The alias table as string slices; its view is `builtin_alias_table()`.
pub fn builtin_alias_pairs() -> (r: Vec<(&'static str, &'static str)>)
    ensures
        r@.len() == builtin_alias_table().len(),
        forall|i: int|
            0 <= i < r@.len() ==> (#[trigger] r@[i]).0@ == builtin_alias_table()[i].0 && r@[i].1@
                == builtin_alias_table()[i].1,
{
    let r = vec![
        ("文本", "Text"),
        ("纯文字", "Plain Text"),
        ("文档", "Document"),
        ("图片", "Image"),
        ("视频", "Video"),
        ("音频", "Audio"),
        ("压缩包", "Compressed Archive"),
        ("源代码", "Source Code"),
        ("程序", "Executable Program"),
        ("字体", "Font"),
        ("模型", "3D Model"),
        ("系统文件", "System Files"),
        ("数据库", "Database"),
        ("磁盘映像", "Disk Image"),
        ("应用数据", "Application Data"),
        ("电子书", "E-Book"),
        ("截图", "Screenshot"),
        ("设计稿", "Design Draft"),
        ("图纸", "Blueprint"),
        ("表情包", "Meme"),
        ("证照", "ID Document"),
        ("合同票据", "Contract or Invoice"),
        ("海报宣发", "Poster Promo"),
        ("医学影像", "Medical Imaging"),
        ("网页长截图", "Long Webpage Screenshot"),
        ("UI界面截图", "UI Screenshot"),
        ("聊天截图", "Chat Screenshot"),
        ("代码截图", "Code Screenshot"),
        ("游戏截图", "Game Screenshot"),
        ("有字图", "Image With Text"),
        ("无字图", "Image Without Text"),
        ("全彩", "Full Color"),
        ("黑白", "Black And White"),
        ("摄影照片", "Photo"),
        ("人像写真", "Portrait"),
        ("人物照", "Person Photo"),
        ("私房写真", "Boudoir Photo"),
        ("婚纱照", "Wedding Photo"),
        ("静物照", "Still Life Photo"),
        ("自然景观", "Natural Landscape"),
        ("城市建筑", "City Architecture"),
        ("旅行照", "Travel Photo"),
        ("风景照", "Scenery Photo"),
        ("宠物照", "Pet Photo"),
        ("二次元", "Anime Style"),
        ("动漫", "Anime"),
        ("插画", "Illustration"),
        ("漫画", "Comic"),
        ("手绘", "Hand Drawn"),
        ("代码", "Code"),
        ("保密", "Confidential"),
        ("名人", "Celebrity"),
        ("社会名流", "Celebrity"),
        ("历史遗迹", "Historic Site"),
        ("户外活动", "Outdoor Activity"),
        ("夜景照", "Night Photo"),
        ("怀旧", "Nostalgic"),
        ("建筑摄影", "Architecture Photo"),
        ("微距摄影", "Macro Photo"),
        ("街拍抓拍", "Street Photo"),
        ("航空航拍", "Aerial Photo"),
        ("青年漫", "Youth Comic"),
        ("少年漫", "Boys Comic"),
        ("少女漫", "Girls Comic"),
        ("成人漫", "Adult Comic"),
        ("实拍", "Real Shot"),
        ("CG渲染", "CG Render"),
        ("AI生成", "AI Generated"),
        ("绘画", "Painting"),
        ("应用图标", "App Icon"),
        ("高饱和鲜艳", "High Saturation"),
        ("暖色调", "Warm Tone"),
        ("冷色调", "Cool Tone"),
        ("中性黑白灰", "Neutral Gray"),
        ("透明背景", "Transparent Background"),
        ("实景背景", "Real Scene Background"),
        ("人物主体", "Human Subject"),
        ("动物宠物", "Animal Pet"),
        ("植物花草", "Plant Flower"),
        ("静物商品", "Still Life Product"),
        ("环境建筑", "Environment Building"),
        ("无人空镜", "Empty Scene"),
        ("单人", "Single Person"),
        ("双人", "Two Persons"),
        ("多人合影", "Group Photo"),
        ("色情", "Pornography"),
        ("血腥", "Gore"),
        ("涉政", "Political Sensitive"),
        ("违规", "Violation"),
        ("高ISO噪点", "High ISO Noise"),
        ("逆光死白", "Backlight Blowout"),
        ("暗光欠曝", "Underexposed"),
        ("同人本", "Doujinshi"),
        ("剧情", "Story"),
        ("二次元色情", "Anime Pornography"),
        ("软色情", "Soft Pornography"),
        ("性感", "Sexy"),
        ("擦边诱惑", "Borderline Tease"),
        ("血腥暴力", "Bloody Violence"),
        ("断头斩首", "Beheading"),
        ("肢解碎尸", "Dismemberment"),
        ("血腥虐杀", "Bloody Massacre"),
        ("露骨", "Explicit"),
        ("露骨性行为", "Explicit Sexual Act"),
        ("安全", "Safe"),
        ("全年龄", "All Ages"),
        ("水彩水墨", "Watercolor Ink"),
        ("四格漫", "Four Panel Comic"),
        ("页漫", "Page Comic"),
        ("条漫", "Webtoon"),
        ("欢乐", "Joyful"),
        ("悲伤", "Sad"),
        ("紧张", "Tense"),
        ("兴奋", "Excited"),
        ("压抑", "Depressed"),
        ("历史", "History"),
        ("text", "Text"),
        ("document", "Document"),
        ("image", "Image"),
        ("screenshot", "Screenshot"),
        ("screen capture", "Screenshot"),
        ("design draft", "Design Draft"),
        ("blueprint", "Blueprint"),
        ("meme", "Meme"),
        ("id document", "ID Document"),
        ("invoice", "Invoice"),
        ("contract", "Contract"),
        ("full color", "Full Color"),
        ("black and white", "Black And White"),
        ("black_and_white", "Black And White"),
        ("image with text", "Image With Text"),
        ("image without text", "Image Without Text"),
        ("text image", "Image With Text"),
        ("anime", "Anime"),
        ("illustration", "Illustration"),
        ("comic", "Comic"),
        ("portrait", "Portrait"),
        ("person photo", "Person Photo"),
        ("still life photo", "Still Life Photo"),
        ("natural landscape", "Natural Landscape"),
        ("scenery photo", "Scenery Photo"),
        ("travel photo", "Travel Photo"),
        ("night photo", "Night Photo"),
        ("real shot", "Real Shot"),
        ("cg render", "CG Render"),
        ("painting", "Painting"),
        ("photo", "Photo"),
        ("black and white", "Black And White"),
        ("full color", "Full Color"),
        ("pornography", "Pornography"),
        ("image with text", "Image With Text"),
        ("image without text", "Image Without Text"),
        ("ui screenshot", "UI Screenshot"),
        ("landscape", "Natural Landscape"),
        ("code screenshot", "Code Screenshot"),
        ("ui screenshot", "UI Screenshot"),
        ("chat screenshot", "Chat Screenshot"),
        ("confidential", "Confidential"),
        ("长图", "Long Image"),
        ("正方形图", "Square Image"),
        ("横图", "Horizontal Image"),
        ("竖图", "Vertical Image"),
        ("横屏", "Landscape"),
        ("竖屏", "Portrait"),
        ("主题内容", "Topic"),
        ("topic", "Topic"),
        ("long image", "Long Image"),
        ("square image", "Square Image"),
        ("horizontal image", "Horizontal Image"),
        ("vertical image", "Vertical Image"),
        ("合同", "Contract"),
        ("发票", "Invoice"),
        ("红头文件", "Official Document"),
        ("论文", "Paper"),
        ("收据", "Receipt"),
        ("对账单", "Statement"),
        ("银行回单", "Bank Receipt"),
        ("采购订单", "Purchase Order"),
        ("报销凭证", "Expense Voucher"),
        ("保函协议", "Letter Of Guarantee"),
        ("投标文件", "Bidding Document"),
        ("身份证", "ID Card"),
        ("房产证", "Property Certificate"),
        ("护照", "Passport"),
        ("驾驶证", "Driver License"),
        ("行驶证", "Vehicle License"),
        ("车牌", "License Plate"),
        ("银行卡", "Bank Card"),
        ("营业执照", "Business License"),
        ("户口本", "Household Register"),
        ("毕业证", "Diploma"),
        ("学位证", "Degree Certificate"),
        ("工作证", "Work Permit"),
        ("结婚证", "Marriage Certificate"),
        ("社保卡", "Social Security Card"),
        ("特写", "Close Up"),
        ("半身", "Medium Shot"),
        ("全身", "Full Shot"),
        ("全景", "Panoramic Shot"),
        ("微距", "Macro"),
        ("日光", "Sunlight"),
        ("日落", "Sunset"),
        ("夜景", "Night Scene"),
        ("暗光", "Low Light"),
        ("室内光", "Indoor Light"),
        ("纯色背景", "Solid Background"),
        ("平视", "Eye Level"),
        ("俯视", "Top Down View"),
        ("仰视", "Low Angle View"),
        ("第一人称", "First Person"),
        ("图表为主", "Chart Dominant"),
        ("图文混合", "Text And Graphic"),
        ("手写笔记", "Handwritten Notes"),
        ("Windows截图", "Windows Screenshot"),
        ("macOS截图", "macOS Screenshot"),
        ("iOS截图", "iOS Screenshot"),
        ("Android截图", "Android Screenshot"),
        ("Linux截图", "Linux Screenshot"),
        ("正方形", "Square"),
        ("超宽长条", "Ultra Wide"),
        ("微量文本", "Minimal Text"),
        ("图文标题", "Graphic Title"),
        ("密集排版", "Dense Layout"),
        ("扁平极简", "Flat Minimalist"),
        ("写实拟真", "Photorealistic"),
        ("复古胶片", "Vintage Film"),
        ("赛博朋克", "Cyberpunk"),
        ("春季花景", "Spring Bloom"),
        ("夏季绿荫", "Summer Shade"),
        ("秋季金黄", "Autumn Foliage"),
        ("冬季雪景", "Winter Snow"),
        ("红色", "Red"),
        ("橙色", "Orange"),
        ("黄色", "Yellow"),
        ("绿色", "Green"),
        ("青色", "Cyan"),
        ("蓝色", "Blue"),
        ("紫色", "Purple"),
        ("粉色", "Pink"),
        ("棕色", "Brown"),
        ("白色", "White"),
        ("黑色", "Black"),
        ("灰色", "Gray"),
        ("商业志", "Commercial Manga"),
        ("虚焦", "Out Of Focus"),
        ("抖动", "Motion Blur"),
        ("曝光良好", "Good Exposure"),
        ("轻微欠曝", "Slight Underexposure"),
        ("轻微过曝", "Slight Overexposure"),
        ("模糊废片", "Blurry Wastage"),
        ("脱焦", "Defocused"),
        ("运动抖动", "Motion Shake"),
        ("曝光正常", "Normal Exposure"),
        ("无码", "Uncensored"),
        ("薄码", "Light Mosaic"),
        ("有码", "Censored"),
        ("无水印", "No Watermark"),
        ("轻水印", "Light Watermark"),
        ("有水印", "Watermarked"),
        ("高质量", "High Quality"),
        ("中等质量", "Medium Quality"),
        ("低质量", "Low Quality"),
        ("R-15", "R-15"),
        ("R-18", "R-18"),
        ("R-18G", "R-18G"),
        ("暴恐", "Violence Terror"),
        ("生殖器暴露", "Genital Exposure"),
        ("性虐调教", "Sadomasochism"),
        ("乱伦淫秽", "Incest Obscene"),
        ("强奸轮奸", "Rape Assault"),
        ("自慰高潮", "Masturbation"),
        ("调教拘束", "Bondage"),
        ("情色文娱", "Erotic Entertainment"),
        ("暴露走光", "Exposure Wardrobe Malfunction"),
        ("残肢断臂", "Severed Limbs"),
        ("尸体残骸", "Corpse Remains"),
        ("酷刑折磨", "Torture"),
        ("重口猎奇", "Hardcore Bizarre"),
        ("暴恐惨案", "Terror Tragedy"),
        ("自残放血", "Self Harm Bleeding"),
        ("血肉模糊", "Flesh Mutilation"),
        ("涉政违规", "Political Sensitive Violation"),
        ("反党反政", "Subversive Politics"),
        ("颠覆政权", "Subversion"),
        ("邪教分裂", "Cult Separatism"),
        ("邪教组织", "Cult Organization"),
        ("暴乱动乱", "Riots Turmoil"),
        ("违法违规", "Illegal Violation"),
        ("毒品交易", "Drug Trafficking"),
        ("走私贩私", "Smuggling"),
        ("网络赌博", "Online Gambling"),
        ("洗钱诈骗", "Money Laundering Fraud"),
        ("暗网黑产", "Darknet Underground"),
        ("洗钱黑产", "Laundering Industry"),
        ("电信诈骗", "Telecom Fraud"),
        ("各地美食", "Local Delicacy"),
        ("治愈", "Healing"),
        ("致郁", "Depressing"),
        ("轻松", "Relaxed"),
        ("感动", "Touching"),
        ("欲望", "Desire"),
        ("罪恶感", "Guilt"),
        ("背德感", "Transgression"),
        ("羞耻", "Shame"),
        ("支配", "Dominance"),
        ("写实", "Realistic"),
        ("内容标签", "Content Tag"),
        ("图片细分", "Image Subdivision")

    ];
    r
}

} // verus!
